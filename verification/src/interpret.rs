//! Evaluation of expressions in an environment of known values.
use vstd::prelude::*;
use crate::ast::{Exp, ExpV, Lval, LvalV};
use crate::env::{DeepCopy, Env, lookup};
use crate::value::{
    Array,
    ArrayV,
    EvalError,
    FloatOp,
    Scalar,
    Value,
    ValueV,
    arith_ok,
    try_eval_binop,
    try_eval_const,
    try_eval_fun_1,
    try_eval_fun_2,
    try_eval_unop,
    scalar_to_usize,
    spec_eval_binop,
    spec_eval_const,
    spec_eval_fun_1,
    spec_eval_fun_2,
    spec_eval_unop,
    spec_scalar_to_usize,
};

verus! {

/// The model of an environment of values.
pub type EnvV = Seq<Map<Seq<char>, Option<ValueV>>>;

/// An environment of values.
pub type ValueEnv = Env<Value>;

impl DeepCopy for Value {
    fn deep_copy(&self) -> (r: Self) {
        match self {
            Value::Scalar(s) => Value::Scalar(*s),
            Value::Array(Array::Int(v)) => Value::Array(Array::Int(v.clone())),
            Value::Array(Array::Float(v)) => Value::Array(Array::Float(v.clone())),
            Value::Array(Array::Cbit(v)) => Value::Array(Array::Cbit(v.clone())),
        }
    }
}

/// Lifts an operation on a known value: an error stays an error, an unknown
/// value stays unknown.
pub open spec fn then_known(
    r: Result<Option<Scalar>, EvalError>,
    f: spec_fn(Scalar) -> Result<Scalar, EvalError>,
) -> Result<Option<Scalar>, EvalError> {
    match r {
        Err(e) => Err(e),
        Ok(None) => Ok(None),
        Ok(Some(v)) => match f(v) {
            Ok(x) => Ok(Some(x)),
            Err(e) => Err(e),
        },
    }
}

/// The value of an expression: `Ok(None)` when a variable it reads has no
/// known value (or an index is out of range), `Err` when an operation is
/// refused. Operands are evaluated left to right and evaluation stops at the
/// first unknown or refused operand.
pub open spec fn spec_interp_exp<A: Fn(FloatOp) -> u64>(a: &A, e: ExpV, m: EnvV) -> Result<
    Option<Scalar>,
    EvalError,
>
    decreases e,
{
    match e {
        ExpV::Int(i) => Ok(Some(Scalar::Int(i))),
        ExpV::Float(f) => Ok(Some(Scalar::Float(f))),
        ExpV::NamedConst(s) => match spec_eval_const(s) {
            Ok(v) => Ok(Some(v)),
            Err(x) => Err(x),
        },
        ExpV::Lval(l) => spec_interp_lval(a, l, m),
        ExpV::Unary(op, e1) => then_known(
            spec_interp_exp(a, *e1, m),
            |v: Scalar| spec_eval_unop(op, v),
        ),
        ExpV::Binary(e1, op, e2) => match spec_interp_exp(a, *e1, m) {
            Err(x) => Err(x),
            Ok(None) => Ok(None),
            Ok(Some(l)) => then_known(
                spec_interp_exp(a, *e2, m),
                |r: Scalar| spec_eval_binop(a, op, l, r),
            ),
        },
        ExpV::Builtin1(f, e1) => then_known(
            spec_interp_exp(a, *e1, m),
            |v: Scalar| spec_eval_fun_1(a, f, v),
        ),
        ExpV::Builtin2(f, e1, e2) => match spec_interp_exp(a, *e1, m) {
            Err(x) => Err(x),
            Ok(None) => Ok(None),
            Ok(Some(l)) => then_known(
                spec_interp_exp(a, *e2, m),
                |r: Scalar| spec_eval_fun_2(a, f, l, r),
            ),
        },
    }
}

/// The element `i` of an array value, as a scalar.
pub open spec fn array_elem(arr: ArrayV, i: int) -> Option<Scalar> {
    match arr {
        ArrayV::Int(v) => if 0 <= i < v.len() {
            Some(Scalar::Int(v[i]))
        } else {
            None
        },
        ArrayV::Float(v) => if 0 <= i < v.len() {
            Some(Scalar::Float(v[i]))
        } else {
            None
        },
        ArrayV::Cbit(v) => if 0 <= i < v.len() {
            Some(Scalar::Cbit(v[i]))
        } else {
            None
        },
    }
}

pub open spec fn spec_interp_lval<A: Fn(FloatOp) -> u64>(a: &A, l: LvalV, m: EnvV) -> Result<
    Option<Scalar>,
    EvalError,
>
    decreases l,
{
    match l {
        LvalV::Var(name) => match lookup(m, name) {
            Some(ValueV::Scalar(v)) => Ok(Some(v)),
            _ => Ok(None),
        },
        LvalV::Array(name, idx) => match spec_interp_exp(a, *idx, m) {
            Err(x) => Err(x),
            Ok(None) => Ok(None),
            Ok(Some(iv)) => match lookup(m, name) {
                Some(ValueV::Array(arr)) => Ok(
                    array_elem(arr, spec_scalar_to_usize(a, iv) as int),
                ),
                _ => Ok(None),
            },
        },
    }
}

fn lift_known(
    r: Result<Option<Scalar>, EvalError>,
    x: Result<Scalar, EvalError>,
) -> (out: Result<Option<Scalar>, EvalError>)
    requires
        r matches Ok(Some(_)),
    ensures
        out == match x {
            Ok(v) => Ok::<Option<Scalar>, EvalError>(Some(v)),
            Err(e) => Err(e),
        },
{
    match x {
        Ok(v) => Ok(Some(v)),
        Err(e) => Err(e),
    }
}

/// Evaluates an expression; see [`spec_interp_exp`].
pub fn try_interpret_exp<A: Fn(FloatOp) -> u64>(e: &Exp, env: &ValueEnv, a: &A) -> (r: Result<
    Option<Scalar>,
    EvalError,
>)
    requires
        env.wf(),
        arith_ok(a),
    ensures
        r == spec_interp_exp(a, e@, env@),
    decreases e,
{
    match e {
        Exp::Int(i) => Ok(Some(Scalar::Int(*i))),
        Exp::Float(f) => Ok(Some(Scalar::Float(*f))),
        Exp::NamedConst(s) => match try_eval_const(s.as_str()) {
            Ok(v) => Ok(Some(v)),
            Err(x) => Err(x),
        },
        Exp::Lval(l) => try_interpret_lval(l, env, a),
        Exp::Unary(op, e1) => {
            let r1 = try_interpret_exp(e1, env, a);
            match r1 {
                Ok(Some(v)) => lift_known(r1, try_eval_unop(op.as_str(), v)),
                _ => r1,
            }
        },
        Exp::Binary(e1, op, e2) => {
            let r1 = try_interpret_exp(e1, env, a);
            match r1 {
                Ok(Some(lhs)) => {
                    let r2 = try_interpret_exp(e2, env, a);
                    match r2 {
                        Ok(Some(rhs)) => lift_known(r2, try_eval_binop(op.as_str(), lhs, rhs, a)),
                        _ => r2,
                    }
                },
                _ => r1,
            }
        },
        Exp::Builtin1(f, e1) => {
            let r1 = try_interpret_exp(e1, env, a);
            match r1 {
                Ok(Some(v)) => lift_known(r1, try_eval_fun_1(f.as_str(), v, a)),
                _ => r1,
            }
        },
        Exp::Builtin2(f, e1, e2) => {
            let r1 = try_interpret_exp(e1, env, a);
            match r1 {
                Ok(Some(lhs)) => {
                    let r2 = try_interpret_exp(e2, env, a);
                    match r2 {
                        Ok(Some(rhs)) => lift_known(r2, try_eval_fun_2(f.as_str(), lhs, rhs, a)),
                        _ => r2,
                    }
                },
                _ => r1,
            }
        },
    }
}

/// Reads a variable or an array element; see [`spec_interp_lval`].
pub fn try_interpret_lval<A: Fn(FloatOp) -> u64>(l: &Lval, env: &ValueEnv, a: &A) -> (r: Result<
    Option<Scalar>,
    EvalError,
>)
    requires
        env.wf(),
        arith_ok(a),
    ensures
        r == spec_interp_lval(a, l@, env@),
    decreases l,
{
    match l {
        Lval::Var(name) => match env.get(name.as_str()) {
            Some(Value::Scalar(val)) => Ok(Some(*val)),
            _ => Ok(None),
        },
        Lval::Array(name, idx_exp) => {
            let ri = try_interpret_exp(idx_exp, env, a);
            match ri {
                Ok(Some(iv)) => {
                    let idx = scalar_to_usize(iv, a);
                    match env.get(name.as_str()) {
                        Some(Value::Array(Array::Int(arr))) => {
                            if idx < arr.len() {
                                Ok(Some(Scalar::Int(arr[idx])))
                            } else {
                                Ok(None)
                            }
                        },
                        Some(Value::Array(Array::Float(arr))) => {
                            if idx < arr.len() {
                                Ok(Some(Scalar::Float(arr[idx])))
                            } else {
                                Ok(None)
                            }
                        },
                        Some(Value::Array(Array::Cbit(arr))) => {
                            if idx < arr.len() {
                                Ok(Some(Scalar::Cbit(arr[idx])))
                            } else {
                                Ok(None)
                            }
                        },
                        _ => Ok(None),
                    }
                },
                _ => ri,
            }
        },
    }
}

} // verus!

verus! {

/// The value of an expression whose evaluation does not fail (`None` where a
/// value is not known); see [`spec_interp_exp`].
pub fn interpret_exp<A: Fn(FloatOp) -> u64>(e: &Exp, env: &ValueEnv, a: &A) -> (r: Option<Scalar>)
    requires
        env.wf(),
        arith_ok(a),
        spec_interp_exp(a, e@, env@) is Ok,
    ensures
        spec_interp_exp(a, e@, env@) == Ok::<Option<Scalar>, EvalError>(r),
{
    try_interpret_exp(e, env, a).unwrap()
}

/// The value of a location whose evaluation does not fail; see
/// [`spec_interp_lval`].
pub fn interpret_lval<A: Fn(FloatOp) -> u64>(l: &Lval, env: &ValueEnv, a: &A) -> (r: Option<Scalar>)
    requires
        env.wf(),
        arith_ok(a),
        spec_interp_lval(a, l@, env@) is Ok,
    ensures
        spec_interp_lval(a, l@, env@) == Ok::<Option<Scalar>, EvalError>(r),
{
    try_interpret_lval(l, env, a).unwrap()
}

} // verus!
