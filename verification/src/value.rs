//! Run-time values, the errors of evaluation, and the evaluation of constants,
//! operators and built-in functions.
//!
//! Floating-point numbers are carried as IEEE-754 bit patterns (`u64`).
//! Sign changes and tests against zero are done on the bits here; every other
//! floating-point computation is asked of a caller-supplied evaluator `A`
//! (see [`FloatOp`]), which the library treats as a deterministic function.
use vstd::prelude::*;
use vstd::arithmetic::power::pow;
use crate::ast::{Exp, ExpV, Statement, Type};
use crate::text::text_eq;

verus! {

/// Bit pattern of π.
pub const PI_BITS: u64 = 0x400921FB54442D18;

/// Bit pattern of π/2.
pub const FRAC_PI_2_BITS: u64 = 0x3FF921FB54442D18;

/// Bit pattern of 1.0.
pub const ONE_BITS: u64 = 0x3FF0000000000000;

/// Bit pattern of 2.0.
pub const TWO_BITS: u64 = 0x4000000000000000;

/// The sign bit of a double.
pub const SIGN_BIT: u64 = 0x8000000000000000;

/// All bits of a double but its sign.
pub const MAGNITUDE_BITS: u64 = 0x7FFFFFFFFFFFFFFF;

/// A classical scalar value.
#[derive(Debug, Clone, Copy, PartialEq, Eq, Structural)]
pub enum Scalar {
    Int(i64),
    Float(u64),
    Cbit(bool),
}

/// A classical array value.
#[derive(Debug)]
pub enum Array {
    Int(Vec<i64>),
    Float(Vec<u64>),
    Cbit(Vec<bool>),
}

/// A classical value: a scalar or an array.
#[derive(Debug)]
pub enum Value {
    Scalar(Scalar),
    Array(Array),
}

/// A procedure as a table of functions would hold it: the names of its
/// parameters and its body.
pub struct Function {
    pub param_names: Vec<String>,
    pub body: Statement,
}

pub enum ArrayV {
    Int(Seq<i64>),
    Float(Seq<u64>),
    Cbit(Seq<bool>),
}

pub enum ValueV {
    Scalar(Scalar),
    Array(ArrayV),
}

impl View for Array {
    type V = ArrayV;

    open spec fn view(&self) -> ArrayV {
        match self {
            Array::Int(v) => ArrayV::Int(v@),
            Array::Float(v) => ArrayV::Float(v@),
            Array::Cbit(v) => ArrayV::Cbit(v@),
        }
    }
}

impl View for Value {
    type V = ValueV;

    open spec fn view(&self) -> ValueV {
        match self {
            Value::Scalar(s) => ValueV::Scalar(*s),
            Value::Array(a) => ValueV::Array(a@),
        }
    }
}

/// Why an evaluation step could not produce a value.
#[derive(Debug, Clone, Copy, PartialEq, Eq, Structural)]
pub enum EvalError {
    UnknownConstant,
    UnsupportedUnary,
    UnsupportedBinary,
    UnsupportedFunction,
    Overflow,
    DivisionByZero,
    QbitCast,
    NonBooleanCondition,
    UndefinedProcedure,
    MissingValue,
    IndexOutOfBounds,
    NoProcedures,
    InliningTooDeep,
    UnknownBit,
    ControlledSwap,
}

/// A floating-point computation, on bit patterns.
#[derive(Debug, Clone, Copy, PartialEq, Eq, Structural)]
pub enum FloatOp {
    Add(u64, u64),
    Sub(u64, u64),
    Mul(u64, u64),
    Div(u64, u64),
    Pow(u64, u64),
    Sin(u64),
    Cos(u64),
    Tan(u64),
    Arcsin(u64),
    Arccos(u64),
    Exp(u64),
    Sqrt(u64),
    Atan2(u64, u64),
    /// `i as f64`, answered as a bit pattern.
    FromInt(i64),
    /// `f as i64`, answered as the two's-complement bits of the result.
    ToInt(u64),
    /// `f as usize`, answered as the value of the result.
    ToUsize(u64),
}

/// The evaluator can be called on every operation, and answers each
/// operation always alike.
pub open spec fn arith_ok<A: Fn(FloatOp) -> u64>(a: &A) -> bool {
    &&& forall|op: FloatOp| call_requires(*a, (op,))
    &&& forall|op: FloatOp, r1: u64, r2: u64|
        call_ensures(*a, (op,), r1) && call_ensures(*a, (op,), r2) ==> r1 == r2
}

/// The evaluator's answer to `op`.
pub open spec fn float_of<A: Fn(FloatOp) -> u64>(a: &A, op: FloatOp) -> u64 {
    choose|r: u64| call_ensures(*a, (op,), r)
}

/// Asks the evaluator for `op`.
pub fn float_call<A: Fn(FloatOp) -> u64>(a: &A, op: FloatOp) -> (r: u64)
    requires
        arith_ok(a),
    ensures
        r == float_of(a, op),
{
    let r = a(op);
    r
}

// ---------------------------------------------------------------------------
// Conversions between scalars
// ---------------------------------------------------------------------------

pub open spec fn spec_scalar_to_bool(s: Scalar) -> bool {
    match s {
        Scalar::Cbit(b) => b,
        Scalar::Int(i) => i != 0,
        Scalar::Float(f) => f & MAGNITUDE_BITS != 0,
    }
}

pub open spec fn spec_scalar_to_usize<A: Fn(FloatOp) -> u64>(a: &A, s: Scalar) -> usize {
    match s {
        Scalar::Cbit(b) => if b { 1 } else { 0 },
        Scalar::Int(i) => i as usize,
        Scalar::Float(f) => float_of(a, FloatOp::ToUsize(f)) as usize,
    }
}

pub open spec fn spec_scalar_to_i64<A: Fn(FloatOp) -> u64>(a: &A, s: Scalar) -> i64 {
    match s {
        Scalar::Cbit(b) => if b { 1 } else { 0 },
        Scalar::Int(i) => i,
        Scalar::Float(f) => float_of(a, FloatOp::ToInt(f)) as i64,
    }
}

pub open spec fn spec_scalar_to_f64<A: Fn(FloatOp) -> u64>(a: &A, s: Scalar) -> u64 {
    match s {
        Scalar::Cbit(b) => if b { ONE_BITS } else { 0 },
        Scalar::Int(i) => float_of(a, FloatOp::FromInt(i)),
        Scalar::Float(f) => f,
    }
}

/// `s` as a usize: a cbit is 0 or 1, an int is cast, a float is converted
/// by the evaluator.
pub fn scalar_to_usize<A: Fn(FloatOp) -> u64>(scalar: Scalar, a: &A) -> (r: usize)
    requires
        arith_ok(a),
    ensures
        r == spec_scalar_to_usize(a, scalar),
{
    match scalar {
        Scalar::Cbit(b) => if b { 1 } else { 0 },
        Scalar::Int(i) => i as usize,
        Scalar::Float(f) => float_call(a, FloatOp::ToUsize(f)) as usize,
    }
}

/// The truth value of a scalar: a number is true when it is not zero
/// (a float of either sign of zero is false).
pub fn scalar_to_bool(s: Scalar) -> (r: bool)
    ensures
        r == spec_scalar_to_bool(s),
{
    match s {
        Scalar::Cbit(b) => b,
        Scalar::Int(i) => i != 0,
        Scalar::Float(f) => f & MAGNITUDE_BITS != 0,
    }
}

pub fn scalar_to_i64<A: Fn(FloatOp) -> u64>(s: Scalar, a: &A) -> (r: i64)
    requires
        arith_ok(a),
    ensures
        r == spec_scalar_to_i64(a, s),
{
    match s {
        Scalar::Cbit(b) => if b { 1 } else { 0 },
        Scalar::Int(i) => i,
        Scalar::Float(f) => float_call(a, FloatOp::ToInt(f)) as i64,
    }
}

/// The bit pattern of a scalar as a double.
pub fn scalar_to_f64<A: Fn(FloatOp) -> u64>(s: Scalar, a: &A) -> (r: u64)
    requires
        arith_ok(a),
    ensures
        r == spec_scalar_to_f64(a, s),
{
    match s {
        Scalar::Cbit(b) => if b { ONE_BITS } else { 0 },
        Scalar::Int(i) => float_call(a, FloatOp::FromInt(i)),
        Scalar::Float(f) => f,
    }
}

pub open spec fn spec_scalar_to_scalar<A: Fn(FloatOp) -> u64>(a: &A, s: Scalar, ty: Type) -> Result<
    Scalar,
    EvalError,
> {
    match ty {
        Type::Cbit => Ok(Scalar::Cbit(spec_scalar_to_bool(s))),
        Type::Int => Ok(Scalar::Int(spec_scalar_to_i64(a, s))),
        Type::Float => Ok(Scalar::Float(spec_scalar_to_f64(a, s))),
        Type::Qbit => Err(EvalError::QbitCast),
    }
}

/// Converts a scalar to the given classical type; a qbit type is refused.
pub fn try_scalar_to_scalar<A: Fn(FloatOp) -> u64>(s: Scalar, ty: Type, a: &A) -> (r: Result<
    Scalar,
    EvalError,
>)
    requires
        arith_ok(a),
    ensures
        r == spec_scalar_to_scalar(a, s, ty),
{
    match ty {
        Type::Cbit => Ok(Scalar::Cbit(scalar_to_bool(s))),
        Type::Int => Ok(Scalar::Int(scalar_to_i64(s, a))),
        Type::Float => Ok(Scalar::Float(scalar_to_f64(s, a))),
        Type::Qbit => Err(EvalError::QbitCast),
    }
}

pub open spec fn spec_scalars_to_array<A: Fn(FloatOp) -> u64>(
    a: &A,
    scalars: Seq<Scalar>,
    ty: Type,
) -> Result<ArrayV, EvalError> {
    match ty {
        Type::Cbit => Ok(ArrayV::Cbit(scalars.map_values(|s: Scalar| spec_scalar_to_bool(s)))),
        Type::Int => Ok(ArrayV::Int(scalars.map_values(|s: Scalar| spec_scalar_to_i64(a, s)))),
        Type::Float => Ok(
            ArrayV::Float(scalars.map_values(|s: Scalar| spec_scalar_to_f64(a, s))),
        ),
        Type::Qbit => Err(EvalError::QbitCast),
    }
}

/// Converts every scalar to the element type of a new array; a qbit type is
/// refused.
pub fn try_scalars_to_array<A: Fn(FloatOp) -> u64>(scalars: Vec<Scalar>, ty: Type, a: &A) -> (r: Result<
    Array,
    EvalError,
>)
    requires
        arith_ok(a),
    ensures
        r matches Ok(arr) ==> spec_scalars_to_array(a, scalars@, ty) == Ok::<ArrayV, EvalError>(
            arr@,
        ),
        r matches Err(e) ==> spec_scalars_to_array(a, scalars@, ty) == Err::<ArrayV, EvalError>(
            e,
        ),
{
    match ty {
        Type::Qbit => Err(EvalError::QbitCast),
        Type::Cbit => {
            let mut out: Vec<bool> = Vec::new();
            for i in 0..scalars.len()
                invariant
                    out@ =~= scalars@.take(i as int).map_values(
                        |s: Scalar| spec_scalar_to_bool(s),
                    ),
            {
                out.push(scalar_to_bool(scalars[i]));
            }
            assert(scalars@.take(scalars.len() as int) =~= scalars@);
            Ok(Array::Cbit(out))
        },
        Type::Int => {
            let mut out: Vec<i64> = Vec::new();
            for i in 0..scalars.len()
                invariant
                    arith_ok(a),
                    out@ =~= scalars@.take(i as int).map_values(
                        |s: Scalar| spec_scalar_to_i64(a, s),
                    ),
            {
                out.push(scalar_to_i64(scalars[i], a));
            }
            assert(scalars@.take(scalars.len() as int) =~= scalars@);
            Ok(Array::Int(out))
        },
        Type::Float => {
            let mut out: Vec<u64> = Vec::new();
            for i in 0..scalars.len()
                invariant
                    arith_ok(a),
                    out@ =~= scalars@.take(i as int).map_values(
                        |s: Scalar| spec_scalar_to_f64(a, s),
                    ),
            {
                out.push(scalar_to_f64(scalars[i], a));
            }
            assert(scalars@.take(scalars.len() as int) =~= scalars@);
            Ok(Array::Float(out))
        },
    }
}

// ---------------------------------------------------------------------------
// Constants and constant nodes
// ---------------------------------------------------------------------------

pub open spec fn spec_is_const_node(e: ExpV) -> bool {
    e is Int || e is Float || e is NamedConst
}

/// Whether an expression is a literal or a named constant.
pub fn is_const_node(exp: &Exp) -> (r: bool)
    ensures
        r == spec_is_const_node(exp@),
{
    match exp {
        Exp::Int(_) | Exp::Float(_) | Exp::NamedConst(_) => true,
        _ => false,
    }
}

pub open spec fn spec_make_const_node(val: Scalar) -> ExpV {
    match val {
        Scalar::Int(i) => ExpV::Int(i),
        Scalar::Float(f) => ExpV::Float(f),
        Scalar::Cbit(b) => ExpV::NamedConst(if b { "true"@ } else { "false"@ }),
    }
}

/// The literal that denotes a scalar; a cbit becomes the named constant
/// `true` or `false`.
pub fn make_const_node(val: Scalar) -> (r: Exp)
    ensures
        r@ == spec_make_const_node(val),
{
    match val {
        Scalar::Int(i) => Exp::Int(i),
        Scalar::Float(f) => Exp::Float(f),
        Scalar::Cbit(b) => Exp::NamedConst(
            if b {
                String::from_str("true")
            } else {
                String::from_str("false")
            },
        ),
    }
}

pub open spec fn spec_eval_const(s: Seq<char>) -> Result<Scalar, EvalError> {
    if s == "pi"@ {
        Ok(Scalar::Float(PI_BITS))
    } else if s == "true"@ {
        Ok(Scalar::Cbit(true))
    } else if s == "false"@ {
        Ok(Scalar::Cbit(false))
    } else {
        Err(EvalError::UnknownConstant)
    }
}

/// The value of a named constant: `pi`, `true` or `false`.
pub fn try_eval_const(s: &str) -> (r: Result<Scalar, EvalError>)
    ensures
        r == spec_eval_const(s@),
{
    if text_eq(s, "pi") {
        Ok(Scalar::Float(PI_BITS))
    } else if text_eq(s, "true") {
        Ok(Scalar::Cbit(true))
    } else if text_eq(s, "false") {
        Ok(Scalar::Cbit(false))
    } else {
        Err(EvalError::UnknownConstant)
    }
}

// ---------------------------------------------------------------------------
// Operators
// ---------------------------------------------------------------------------

pub open spec fn spec_eval_unop(op: Seq<char>, x: Scalar) -> Result<Scalar, EvalError> {
    match x {
        Scalar::Int(i) => if op == "-"@ {
            if i == i64::MIN {
                Err(EvalError::Overflow)
            } else {
                Ok(Scalar::Int((-i) as i64))
            }
        } else if op == "~"@ {
            Ok(Scalar::Int(!i))
        } else {
            Err(EvalError::UnsupportedUnary)
        },
        Scalar::Float(f) => if op == "-"@ {
            Ok(Scalar::Float(f ^ SIGN_BIT))
        } else {
            Err(EvalError::UnsupportedUnary)
        },
        Scalar::Cbit(b) => if op == "not"@ {
            Ok(Scalar::Cbit(!b))
        } else {
            Err(EvalError::UnsupportedUnary)
        },
    }
}

/// Applies a unary operator: `-` to a number (a float by flipping its sign
/// bit), `~` to an int, `not` to a cbit.
pub fn try_eval_unop(op: &str, x: Scalar) -> (r: Result<Scalar, EvalError>)
    ensures
        r == spec_eval_unop(op@, x),
{
    match x {
        Scalar::Int(i) => {
            if text_eq(op, "-") {
                if i == i64::MIN {
                    Err(EvalError::Overflow)
                } else {
                    Ok(Scalar::Int(-i))
                }
            } else if text_eq(op, "~") {
                Ok(Scalar::Int(!i))
            } else {
                Err(EvalError::UnsupportedUnary)
            }
        },
        Scalar::Float(f) => {
            if text_eq(op, "-") {
                Ok(Scalar::Float(f ^ SIGN_BIT))
            } else {
                Err(EvalError::UnsupportedUnary)
            }
        },
        Scalar::Cbit(b) => {
            if text_eq(op, "not") {
                Ok(Scalar::Cbit(!b))
            } else {
                Err(EvalError::UnsupportedUnary)
            }
        },
    }
}

pub open spec fn in_i64(x: int) -> bool {
    i64::MIN <= x <= i64::MAX
}

pub open spec fn checked(x: int) -> Result<Scalar, EvalError> {
    if in_i64(x) {
        Ok(Scalar::Int(x as i64))
    } else {
        Err(EvalError::Overflow)
    }
}

/// `a` raised to `b as u32`, as Rust's `i64::pow` computes it.
pub open spec fn spec_int_pow(a: i64, b: i64) -> Result<Scalar, EvalError> {
    checked(pow(a as int, (b as u32) as nat))
}

pub open spec fn spec_int_binop(op: Seq<char>, a: i64, b: i64) -> Result<Scalar, EvalError> {
    if op == "+"@ {
        checked(a + b)
    } else if op == "-"@ {
        checked(a - b)
    } else if op == "*"@ {
        checked(a * b)
    } else if op == "/"@ {
        if b == 0 {
            Err(EvalError::DivisionByZero)
        } else {
            match a.checked_div(b) {
                Some(q) => Ok(Scalar::Int(q)),
                None => Err(EvalError::Overflow),
            }
        }
    } else if op == "%"@ {
        if b == 0 {
            Err(EvalError::DivisionByZero)
        } else {
            match a.checked_rem(b) {
                Some(q) => Ok(Scalar::Int(q)),
                None => Err(EvalError::Overflow),
            }
        }
    } else if op == "&"@ {
        Ok(Scalar::Int(a & b))
    } else if op == "|"@ {
        Ok(Scalar::Int(a | b))
    } else if op == "^"@ || op == "xor"@ {
        Ok(Scalar::Int(a ^ b))
    } else if op == "<"@ {
        Ok(Scalar::Cbit(a < b))
    } else if op == "=="@ {
        Ok(Scalar::Cbit(a == b))
    } else if op == "**"@ {
        spec_int_pow(a, b)
    } else {
        Err(EvalError::UnsupportedBinary)
    }
}

pub open spec fn spec_float_binop<A: Fn(FloatOp) -> u64>(
    a: &A,
    op: Seq<char>,
    x: u64,
    y: u64,
) -> Result<Scalar, EvalError> {
    if op == "+"@ {
        Ok(Scalar::Float(float_of(a, FloatOp::Add(x, y))))
    } else if op == "-"@ {
        Ok(Scalar::Float(float_of(a, FloatOp::Sub(x, y))))
    } else if op == "*"@ {
        Ok(Scalar::Float(float_of(a, FloatOp::Mul(x, y))))
    } else if op == "/"@ {
        Ok(Scalar::Float(float_of(a, FloatOp::Div(x, y))))
    } else if op == "**"@ {
        Ok(Scalar::Float(float_of(a, FloatOp::Pow(x, y))))
    } else {
        Err(EvalError::UnsupportedBinary)
    }
}

pub open spec fn spec_eval_binop<A: Fn(FloatOp) -> u64>(
    a: &A,
    op: Seq<char>,
    lhs: Scalar,
    rhs: Scalar,
) -> Result<Scalar, EvalError> {
    match (lhs, rhs) {
        (Scalar::Int(x), Scalar::Int(y)) => spec_int_binop(op, x, y),
        (Scalar::Float(x), Scalar::Float(y)) => spec_float_binop(a, op, x, y),
        (Scalar::Int(x), Scalar::Float(y)) => spec_float_binop(
            a,
            op,
            float_of(a, FloatOp::FromInt(x)),
            y,
        ),
        (Scalar::Float(x), Scalar::Int(y)) => spec_float_binop(
            a,
            op,
            x,
            float_of(a, FloatOp::FromInt(y)),
        ),
        _ => Err(EvalError::UnsupportedBinary),
    }
}

proof fn lemma_pow_step(a: int, k: nat)
    ensures
        pow(a, k + 1) == a * pow(a, k),
{
    reveal(pow);
}

proof fn lemma_pow_minus_one(k: nat)
    ensures
        pow(-1, k) == if k % 2 == 0 { 1int } else { -1int },
    decreases k,
{
    reveal(pow);
    if k > 0 {
        lemma_pow_minus_one((k - 1) as nat);
    }
}

proof fn lemma_pow_zero(k: nat)
    ensures
        pow(0, k) == if k == 0 { 1int } else { 0int },
{
    reveal(pow);
}

proof fn lemma_pow_one(k: nat)
    ensures
        pow(1, k) == 1,
    decreases k,
{
    reveal(pow);
    if k > 0 {
        lemma_pow_one((k - 1) as nat);
    }
}

/// Once `a^k` leaves the range of i64 with `|a| >= 2`, every higher power does too.
proof fn lemma_pow_stays_out(a: int, k: nat, e: nat)
    requires
        a >= 2 || a <= -2,
        k <= e,
        !in_i64(pow(a, k)),
    ensures
        !in_i64(pow(a, e)),
    decreases e - k,
{
    if k < e {
        let p = pow(a, k);
        lemma_pow_step(a, k);
        assert(!in_i64(a * p)) by (nonlinear_arith)
            requires
                a >= 2 || a <= -2,
                p > i64::MAX || p < i64::MIN,
        {
            if a >= 2 {
                if p > 0 {
                    assert(a * p >= 2 * p);
                } else {
                    assert(a * p <= 2 * p);
                }
            } else {
                if p > 0 {
                    assert(a * p <= -2 * p);
                } else {
                    assert(a * p >= -2 * p);
                }
            }
        }
        lemma_pow_stays_out(a, k + 1, e);
    }
}

/// `a ** b` on ints, as `a.pow(b as u32)`.
fn int_pow(a: i64, b: i64) -> (r: Result<Scalar, EvalError>)
    ensures
        r == spec_int_pow(a, b),
{
    let e: u32 = b as u32;
    let ghost en: nat = e as nat;
    if a == 0 {
        proof {
            lemma_pow_zero(en);
        }
        return Ok(Scalar::Int(if e == 0 { 1 } else { 0 }));
    }
    if a == 1 {
        proof {
            lemma_pow_one(en);
        }
        return Ok(Scalar::Int(1));
    }
    if a == -1 {
        proof {
            lemma_pow_minus_one(en);
        }
        return Ok(Scalar::Int(if e % 2 == 0 { 1 } else { -1 }));
    }
    let mut acc: i64 = 1;
    let mut k: u32 = 0;
    proof {
        reveal(pow);
    }
    while k < e
        invariant
            k <= e,
            e == b as u32,
            a >= 2 || a <= -2,
            acc as int == pow(a as int, k as nat),
        decreases e - k,
    {
        proof {
            lemma_pow_step(a as int, k as nat);
        }
        match acc.checked_mul(a) {
            Some(v) => {
                acc = v;
            },
            None => {
                proof {
                    assert(pow(a as int, (k + 1) as nat) == acc * a);
                    lemma_pow_stays_out(a as int, (k + 1) as nat, e as nat);
                }
                return Err(EvalError::Overflow);
            },
        }
        k = k + 1;
    }
    Ok(Scalar::Int(acc))
}

fn int_binop(op: &str, a: i64, b: i64) -> (r: Result<Scalar, EvalError>)
    ensures
        r == spec_int_binop(op@, a, b),
{
    if text_eq(op, "+") {
        match a.checked_add(b) {
            Some(v) => Ok(Scalar::Int(v)),
            None => Err(EvalError::Overflow),
        }
    } else if text_eq(op, "-") {
        match a.checked_sub(b) {
            Some(v) => Ok(Scalar::Int(v)),
            None => Err(EvalError::Overflow),
        }
    } else if text_eq(op, "*") {
        match a.checked_mul(b) {
            Some(v) => Ok(Scalar::Int(v)),
            None => Err(EvalError::Overflow),
        }
    } else if text_eq(op, "/") {
        if b == 0 {
            Err(EvalError::DivisionByZero)
        } else {
            match a.checked_div(b) {
                Some(q) => Ok(Scalar::Int(q)),
                None => Err(EvalError::Overflow),
            }
        }
    } else if text_eq(op, "%") {
        if b == 0 {
            Err(EvalError::DivisionByZero)
        } else {
            match a.checked_rem(b) {
                Some(q) => Ok(Scalar::Int(q)),
                None => Err(EvalError::Overflow),
            }
        }
    } else if text_eq(op, "&") {
        Ok(Scalar::Int(a & b))
    } else if text_eq(op, "|") {
        Ok(Scalar::Int(a | b))
    } else if text_eq(op, "^") || text_eq(op, "xor") {
        Ok(Scalar::Int(a ^ b))
    } else if text_eq(op, "<") {
        Ok(Scalar::Cbit(a < b))
    } else if text_eq(op, "==") {
        Ok(Scalar::Cbit(a == b))
    } else if text_eq(op, "**") {
        int_pow(a, b)
    } else {
        Err(EvalError::UnsupportedBinary)
    }
}

fn float_binop<A: Fn(FloatOp) -> u64>(op: &str, x: u64, y: u64, a: &A) -> (r: Result<
    Scalar,
    EvalError,
>)
    requires
        arith_ok(a),
    ensures
        r == spec_float_binop(a, op@, x, y),
{
    if text_eq(op, "+") {
        Ok(Scalar::Float(float_call(a, FloatOp::Add(x, y))))
    } else if text_eq(op, "-") {
        Ok(Scalar::Float(float_call(a, FloatOp::Sub(x, y))))
    } else if text_eq(op, "*") {
        Ok(Scalar::Float(float_call(a, FloatOp::Mul(x, y))))
    } else if text_eq(op, "/") {
        Ok(Scalar::Float(float_call(a, FloatOp::Div(x, y))))
    } else if text_eq(op, "**") {
        Ok(Scalar::Float(float_call(a, FloatOp::Pow(x, y))))
    } else {
        Err(EvalError::UnsupportedBinary)
    }
}

/// Applies a binary operator. Two ints use checked integer arithmetic
/// (`+ - * / % & | ^ xor < == **`); two floats, or an int and a float (the
/// int converted), use floating-point arithmetic (`+ - * / **`); anything
/// else is refused.
pub fn try_eval_binop<A: Fn(FloatOp) -> u64>(op: &str, lhs: Scalar, rhs: Scalar, a: &A) -> (r: Result<
    Scalar,
    EvalError,
>)
    requires
        arith_ok(a),
    ensures
        r == spec_eval_binop(a, op@, lhs, rhs),
{
    match (lhs, rhs) {
        (Scalar::Int(x), Scalar::Int(y)) => int_binop(op, x, y),
        (Scalar::Float(x), Scalar::Float(y)) => float_binop(op, x, y, a),
        (Scalar::Int(x), Scalar::Float(y)) => {
            let fx = float_call(a, FloatOp::FromInt(x));
            float_binop(op, fx, y, a)
        },
        (Scalar::Float(x), Scalar::Int(y)) => {
            let fy = float_call(a, FloatOp::FromInt(y));
            float_binop(op, x, fy, a)
        },
        _ => Err(EvalError::UnsupportedBinary),
    }
}

pub open spec fn spec_float_fun_1<A: Fn(FloatOp) -> u64>(a: &A, name: Seq<char>, f: u64) -> Result<
    Scalar,
    EvalError,
> {
    if name == "sin"@ {
        Ok(Scalar::Float(float_of(a, FloatOp::Sin(f))))
    } else if name == "cos"@ {
        Ok(Scalar::Float(float_of(a, FloatOp::Cos(f))))
    } else if name == "tan"@ {
        Ok(Scalar::Float(float_of(a, FloatOp::Tan(f))))
    } else if name == "arcsin"@ {
        Ok(Scalar::Float(float_of(a, FloatOp::Arcsin(f))))
    } else if name == "arccos"@ {
        Ok(Scalar::Float(float_of(a, FloatOp::Arccos(f))))
    } else if name == "exp"@ {
        Ok(Scalar::Float(float_of(a, FloatOp::Exp(f))))
    } else if name == "sqrt"@ {
        Ok(Scalar::Float(float_of(a, FloatOp::Sqrt(f))))
    } else {
        Err(EvalError::UnsupportedFunction)
    }
}

pub open spec fn spec_eval_fun_1<A: Fn(FloatOp) -> u64>(a: &A, name: Seq<char>, arg: Scalar) -> Result<
    Scalar,
    EvalError,
> {
    match arg {
        Scalar::Float(f) => spec_float_fun_1(a, name, f),
        Scalar::Int(i) => spec_float_fun_1(a, name, float_of(a, FloatOp::FromInt(i))),
        Scalar::Cbit(_) => Err(EvalError::UnsupportedFunction),
    }
}

fn float_fun_1<A: Fn(FloatOp) -> u64>(name: &str, f: u64, a: &A) -> (r: Result<Scalar, EvalError>)
    requires
        arith_ok(a),
    ensures
        r == spec_float_fun_1(a, name@, f),
{
    if text_eq(name, "sin") {
        Ok(Scalar::Float(float_call(a, FloatOp::Sin(f))))
    } else if text_eq(name, "cos") {
        Ok(Scalar::Float(float_call(a, FloatOp::Cos(f))))
    } else if text_eq(name, "tan") {
        Ok(Scalar::Float(float_call(a, FloatOp::Tan(f))))
    } else if text_eq(name, "arcsin") {
        Ok(Scalar::Float(float_call(a, FloatOp::Arcsin(f))))
    } else if text_eq(name, "arccos") {
        Ok(Scalar::Float(float_call(a, FloatOp::Arccos(f))))
    } else if text_eq(name, "exp") {
        Ok(Scalar::Float(float_call(a, FloatOp::Exp(f))))
    } else if text_eq(name, "sqrt") {
        Ok(Scalar::Float(float_call(a, FloatOp::Sqrt(f))))
    } else {
        Err(EvalError::UnsupportedFunction)
    }
}

/// Applies a one-argument built-in (`sin cos tan arcsin arccos exp sqrt`) to
/// a float, or to an int converted to a float.
pub fn try_eval_fun_1<A: Fn(FloatOp) -> u64>(name: &str, arg: Scalar, a: &A) -> (r: Result<
    Scalar,
    EvalError,
>)
    requires
        arith_ok(a),
    ensures
        r == spec_eval_fun_1(a, name@, arg),
{
    match arg {
        Scalar::Float(f) => float_fun_1(name, f, a),
        Scalar::Int(i) => {
            let f = float_call(a, FloatOp::FromInt(i));
            float_fun_1(name, f, a)
        },
        Scalar::Cbit(_) => Err(EvalError::UnsupportedFunction),
    }
}

pub open spec fn spec_eval_fun_2<A: Fn(FloatOp) -> u64>(
    a: &A,
    name: Seq<char>,
    arg1: Scalar,
    arg2: Scalar,
) -> Result<Scalar, EvalError> {
    let x = match arg1 {
        Scalar::Int(i) => Scalar::Float(float_of(a, FloatOp::FromInt(i))),
        _ => arg1,
    };
    let y = match arg2 {
        Scalar::Int(i) => Scalar::Float(float_of(a, FloatOp::FromInt(i))),
        _ => arg2,
    };
    match (x, y) {
        (Scalar::Float(fx), Scalar::Float(fy)) => if name == "arctan2"@ {
            Ok(Scalar::Float(float_of(a, FloatOp::Atan2(fx, fy))))
        } else {
            Err(EvalError::UnsupportedFunction)
        },
        _ => Err(EvalError::UnsupportedFunction),
    }
}

/// Applies a two-argument built-in (`arctan2`) to floats, ints converted to
/// floats.
pub fn try_eval_fun_2<A: Fn(FloatOp) -> u64>(name: &str, arg1: Scalar, arg2: Scalar, a: &A) -> (r: Result<
    Scalar,
    EvalError,
>)
    requires
        arith_ok(a),
    ensures
        r == spec_eval_fun_2(a, name@, arg1, arg2),
{
    let x = match arg1 {
        Scalar::Int(i) => Scalar::Float(float_call(a, FloatOp::FromInt(i))),
        _ => arg1,
    };
    let y = match arg2 {
        Scalar::Int(i) => Scalar::Float(float_call(a, FloatOp::FromInt(i))),
        _ => arg2,
    };
    match (x, y) {
        (Scalar::Float(fx), Scalar::Float(fy)) => {
            if text_eq(name, "arctan2") {
                Ok(Scalar::Float(float_call(a, FloatOp::Atan2(fx, fy))))
            } else {
                Err(EvalError::UnsupportedFunction)
            }
        },
        _ => Err(EvalError::UnsupportedFunction),
    }
}

} // verus!

verus! {

// ---------------------------------------------------------------------------
// Evaluation of input on which it succeeds
// ---------------------------------------------------------------------------
//
// An unknown constant, operator or function, or a classical value asked of a
// qbit, is a fatal error. The functions below take only input on which
// evaluation succeeds; the `try_` functions take any input and say which
// error comes.

/// Converts a scalar to a classical type; see [`spec_scalar_to_scalar`].
pub fn scalar_to_scalar<A: Fn(FloatOp) -> u64>(s: Scalar, ty: Type, a: &A) -> (r: Scalar)
    requires
        arith_ok(a),
        spec_scalar_to_scalar(a, s, ty) is Ok,
    ensures
        spec_scalar_to_scalar(a, s, ty) == Ok::<Scalar, EvalError>(r),
{
    try_scalar_to_scalar(s, ty, a).unwrap()
}

/// Makes an array of a classical type; see [`spec_scalars_to_array`].
pub fn scalars_to_array<A: Fn(FloatOp) -> u64>(scalars: Vec<Scalar>, ty: Type, a: &A) -> (r: Array)
    requires
        arith_ok(a),
        spec_scalars_to_array(a, scalars@, ty) is Ok,
    ensures
        spec_scalars_to_array(a, scalars@, ty) == Ok::<ArrayV, EvalError>(r@),
{
    try_scalars_to_array(scalars, ty, a).unwrap()
}

/// The value of a named constant; see [`spec_eval_const`].
pub fn eval_const(s: &str) -> (r: Scalar)
    requires
        spec_eval_const(s@) is Ok,
    ensures
        spec_eval_const(s@) == Ok::<Scalar, EvalError>(r),
{
    try_eval_const(s).unwrap()
}

/// Applies a unary operator; see [`spec_eval_unop`].
pub fn eval_unop(op: &str, x: Scalar) -> (r: Scalar)
    requires
        spec_eval_unop(op@, x) is Ok,
    ensures
        spec_eval_unop(op@, x) == Ok::<Scalar, EvalError>(r),
{
    try_eval_unop(op, x).unwrap()
}

/// Applies a binary operator; see [`spec_eval_binop`].
pub fn eval_binop<A: Fn(FloatOp) -> u64>(op: &str, lhs: Scalar, rhs: Scalar, a: &A) -> (r: Scalar)
    requires
        arith_ok(a),
        spec_eval_binop(a, op@, lhs, rhs) is Ok,
    ensures
        spec_eval_binop(a, op@, lhs, rhs) == Ok::<Scalar, EvalError>(r),
{
    try_eval_binop(op, lhs, rhs, a).unwrap()
}

/// Applies a built-in function of one argument; see [`spec_eval_fun_1`].
pub fn eval_fun_1<A: Fn(FloatOp) -> u64>(name: &str, arg: Scalar, a: &A) -> (r: Scalar)
    requires
        arith_ok(a),
        spec_eval_fun_1(a, name@, arg) is Ok,
    ensures
        spec_eval_fun_1(a, name@, arg) == Ok::<Scalar, EvalError>(r),
{
    try_eval_fun_1(name, arg, a).unwrap()
}

/// Applies a built-in function of two arguments; see [`spec_eval_fun_2`].
pub fn eval_fun_2<A: Fn(FloatOp) -> u64>(name: &str, arg1: Scalar, arg2: Scalar, a: &A) -> (r: Scalar)
    requires
        arith_ok(a),
        spec_eval_fun_2(a, name@, arg1, arg2) is Ok,
    ensures
        spec_eval_fun_2(a, name@, arg1, arg2) == Ok::<Scalar, EvalError>(r),
{
    try_eval_fun_2(name, arg1, arg2, a).unwrap()
}

} // verus!
