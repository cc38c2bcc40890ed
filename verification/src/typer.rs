//! The type checker of whole programs: every procedure's body is checked
//! against the declared types of its parameters and locals, and every call
//! against the called procedure's parameters.
//!
//! The `check_*` functions take any input and report the first problem
//! found as a message. The `type_*` functions take only inputs that type
//! check (an ill-typed program is a fatal error): a caller with an input it
//! is unsure of checks it first.
//!
//! Scalar types are ordered `cbit <= int <= float`: a value fits where a type
//! at least as large is expected. A comparison (`<`, `==`) gives a cbit; any
//! other operator gives the larger of its operands' types.
use vstd::prelude::*;
use vstd::string::*;
use crate::ast::{
    Declaration,
    DeclarationV,
    Exp,
    ExpV,
    Lval,
    LvalV,
    ParamV,
    ParameterDeclaration,
    Procedure,
    ProcedureV,
    Program,
    ProgramV,
    QUpdate,
    QUpdateV,
    Statement,
    StatementV,
    Type,
    copy_procedure,
    decl_name,
    decls_view,
    exps_view,
    lemma_block_view,
    lvals_view,
    params_view,
    procs_view,
    stmts_view,
};
use crate::env::{Env, declare, lookup};
use crate::part_eval::{ProcMap, ProcsV};
use crate::text::text_eq;
use crate::interpret::{EnvV, array_elem, spec_interp_exp, spec_interp_lval};
use crate::value::{ArrayV, FloatOp, Scalar, ValueV, spec_eval_binop, spec_eval_unop, spec_int_binop, spec_float_binop};

verus! {

/// The type of a variable: a scalar, or an array of scalars with its size
/// when it is known.
#[derive(Debug, Clone, Copy)]
pub enum Ty {
    Scalar(Type),
    Array(Type, Option<i64>),
}

impl View for Ty {
    type V = Ty;

    open spec fn view(&self) -> Ty {
        *self
    }
}

/// The types of the variables in scope.
pub type TyEnv = Env<Ty>;

pub type TyEnvV = Seq<Map<Seq<char>, Option<Ty>>>;

/// Whether a value of scalar type `a` fits where `b` is expected.
pub open spec fn fits(a: Type, b: Type) -> bool {
    ||| a == b
    ||| a == Type::Cbit && (b == Type::Int || b == Type::Float)
    ||| a == Type::Int && b == Type::Float
}

/// The larger of two scalar types (the first when they are not comparable).
pub open spec fn larger(a: Type, b: Type) -> Type {
    if fits(a, b) {
        b
    } else {
        a
    }
}

fn fits_exec(a: Type, b: Type) -> (r: bool)
    ensures
        r == fits(a, b),
{
    a == b || (a == Type::Cbit && (b == Type::Int || b == Type::Float)) || (a == Type::Int && b
        == Type::Float)
}

/// The type of a binary operation: a comparison gives a cbit, any other
/// operator the larger of its operands' types.
pub open spec fn binop_type(op: Seq<char>, lt: Type, rt: Type) -> Type {
    if op == "<"@ || op == "=="@ {
        Type::Cbit
    } else {
        larger(lt, rt)
    }
}

fn binop_type_exec(op: &str, lt: Type, rt: Type) -> (r: Type)
    ensures
        r == binop_type(op@, lt, rt),
{
    if text_eq(op, "<") || text_eq(op, "==") {
        Type::Cbit
    } else if fits_exec(lt, rt) {
        rt
    } else {
        lt
    }
}

/// The name of a scalar type as a message shows it.
pub open spec fn type_label(t: Type) -> Seq<char> {
    match t {
        Type::Int => "Int"@,
        Type::Float => "Float"@,
        Type::Cbit => "Cbit"@,
        Type::Qbit => "Qbit"@,
    }
}

fn type_label_exec(t: Type) -> (r: &'static str)
    ensures
        r@ == type_label(t),
{
    match t {
        Type::Int => "Int",
        Type::Float => "Float",
        Type::Cbit => "Cbit",
        Type::Qbit => "Qbit",
    }
}

/// A result whose message is seen as its characters.
pub open spec fn rs<T>(r: Result<T, String>) -> Result<T, Seq<char>> {
    match r {
        Ok(x) => Ok(x),
        Err(s) => Err(s@),
    }
}

fn fail<T>(msg: &str) -> (r: Result<T, String>)
    ensures
        rs(r) == Err::<T, Seq<char>>(msg@),
{
    Err(String::from_str(msg))
}

fn fail_named<T>(msg: &str, name: &str) -> (r: Result<T, String>)
    ensures
        rs(r) == Err::<T, Seq<char>>(msg@ + name@),
{
    let mut s = String::from_str(msg);
    s.append(name);
    Err(s)
}

// ---------------------------------------------------------------------------
// Expressions and locations
// ---------------------------------------------------------------------------

/// The type of a variable in scope.
pub open spec fn spec_var_type(n: Seq<char>, m: TyEnvV) -> Result<Ty, Seq<char>> {
    match lookup(m, n) {
        Some(t) => Ok(t),
        None => Err("Unknown variable "@ + n),
    }
}

/// The type of an expression: literals are ints and floats, `true` and
/// `false` cbits, `pi` a float; qbits and arrays have no value; built-in
/// functions give floats.
pub open spec fn spec_type_exp(e: ExpV, m: TyEnvV) -> Result<Type, Seq<char>>
    decreases e,
{
    match e {
        ExpV::Int(_) => Ok(Type::Int),
        ExpV::Float(_) => Ok(Type::Float),
        ExpV::NamedConst(c) => if c == "true"@ || c == "false"@ {
            Ok(Type::Cbit)
        } else if c == "pi"@ {
            Ok(Type::Float)
        } else {
            Err("Unknown constant"@)
        },
        ExpV::Lval(l) => match spec_type_lval(l, m) {
            Err(x) => Err(x),
            Ok(Ty::Scalar(t)) => if t == Type::Qbit {
                Err("Qbit not allowed in expressions"@)
            } else {
                Ok(t)
            },
            Ok(Ty::Array(_, _)) => Err("Array not allowed in expressions"@),
        },
        ExpV::Unary(_, e1) => match spec_type_exp(*e1, m) {
            Err(x) => Err(x),
            Ok(t) => if t == Type::Qbit {
                Err("Qbit not allowed"@)
            } else {
                Ok(t)
            },
        },
        ExpV::Binary(l, op, r) => match spec_type_exp(*l, m) {
            Err(x) => Err(x),
            Ok(lt) => match spec_type_exp(*r, m) {
                Err(x) => Err(x),
                Ok(rt) => if lt == Type::Qbit || rt == Type::Qbit {
                    Err("Qbit not allowed"@)
                } else {
                    Ok(binop_type(op, lt, rt))
                },
            },
        },
        ExpV::Builtin1(_, e1) => match spec_type_exp(*e1, m) {
            Err(x) => Err(x),
            Ok(t) => if t == Type::Qbit {
                Err("Qbit not allowed"@)
            } else {
                Ok(Type::Float)
            },
        },
        ExpV::Builtin2(_, e1, e2) => match spec_type_exp(*e1, m) {
            Err(x) => Err(x),
            Ok(t1) => if t1 == Type::Qbit {
                Err("Qbit not allowed"@)
            } else {
                match spec_type_exp(*e2, m) {
                    Err(x) => Err(x),
                    Ok(t2) => if t2 == Type::Qbit {
                        Err("Qbit not allowed"@)
                    } else {
                        Ok(Type::Float)
                    },
                }
            },
        },
    }
}

/// The type of a location: a variable's type, or the element type of an
/// array indexed by an int.
pub open spec fn spec_type_lval(l: LvalV, m: TyEnvV) -> Result<Ty, Seq<char>>
    decreases l,
{
    match l {
        LvalV::Var(n) => spec_var_type(n, m),
        LvalV::Array(n, idx) => match spec_type_exp(*idx, m) {
            Err(x) => Err(x),
            Ok(it) => if it != Type::Int {
                Err("Array index must be int"@)
            } else {
                match spec_var_type(n, m) {
                    Err(x) => Err(x),
                    Ok(Ty::Array(t, _)) => Ok(Ty::Scalar(t)),
                    Ok(Ty::Scalar(_)) => Err("Indexing non-array"@),
                }
            },
        },
    }
}

fn var_type(name: &String, env: &TyEnv) -> (r: Result<Ty, String>)
    requires
        env.wf(),
    ensures
        rs(r) == spec_var_type(name@, env@),
{
    match env.get(name.as_str()) {
        Some(t) => Ok(*t),
        None => fail_named("Unknown variable ", name.as_str()),
    }
}

fn named_const_type(c: &String) -> (r: Result<Type, String>)
    ensures
        rs(r) == (if c@ == "true"@ || c@ == "false"@ {
            Ok::<Type, Seq<char>>(Type::Cbit)
        } else if c@ == "pi"@ {
            Ok::<Type, Seq<char>>(Type::Float)
        } else {
            Err::<Type, Seq<char>>("Unknown constant"@)
        }),
{
    if text_eq(c.as_str(), "true") || text_eq(c.as_str(), "false") {
        Ok(Type::Cbit)
    } else if text_eq(c.as_str(), "pi") {
        Ok(Type::Float)
    } else {
        fail("Unknown constant")
    }
}

/// The type of an expression, or the first problem; see [`spec_type_exp`].
pub fn check_exp(e: &Exp, env: &TyEnv) -> (r: Result<Type, String>)
    requires
        env.wf(),
    ensures
        rs(r) == spec_type_exp(e@, env@),
    decreases e,
{
    match e {
        Exp::Int(_) => Ok(Type::Int),
        Exp::Float(_) => Ok(Type::Float),
        Exp::NamedConst(c) => named_const_type(c),
        Exp::Lval(l) => match check_lval(l, env) {
            Err(x) => Err(x),
            Ok(Ty::Scalar(t)) => if t == Type::Qbit {
                fail("Qbit not allowed in expressions")
            } else {
                Ok(t)
            },
            Ok(Ty::Array(_, _)) => fail("Array not allowed in expressions"),
        },
        Exp::Unary(_, e1) => {
            let t = match check_exp(e1, env) {
                Ok(t) => t,
                Err(x) => return Err(x),
            };
            if t == Type::Qbit {
                fail("Qbit not allowed")
            } else {
                Ok(t)
            }
        },
        Exp::Binary(l, op, r) => {
            let lt = match check_exp(l, env) {
                Ok(t) => t,
                Err(x) => return Err(x),
            };
            let rt = match check_exp(r, env) {
                Ok(t) => t,
                Err(x) => return Err(x),
            };
            if lt == Type::Qbit || rt == Type::Qbit {
                fail("Qbit not allowed")
            } else {
                Ok(binop_type_exec(op.as_str(), lt, rt))
            }
        },
        Exp::Builtin1(_, e1) => {
            let t = match check_exp(e1, env) {
                Ok(t) => t,
                Err(x) => return Err(x),
            };
            if t == Type::Qbit {
                fail("Qbit not allowed")
            } else {
                Ok(Type::Float)
            }
        },
        Exp::Builtin2(_, e1, e2) => {
            let t1 = match check_exp(e1, env) {
                Ok(t) => t,
                Err(x) => return Err(x),
            };
            if t1 == Type::Qbit {
                return fail("Qbit not allowed");
            }
            let t2 = match check_exp(e2, env) {
                Ok(t) => t,
                Err(x) => return Err(x),
            };
            if t2 == Type::Qbit {
                fail("Qbit not allowed")
            } else {
                Ok(Type::Float)
            }
        },
    }
}

/// The type of a location, or the first problem; see [`spec_type_lval`].
pub fn check_lval(l: &Lval, env: &TyEnv) -> (r: Result<Ty, String>)
    requires
        env.wf(),
    ensures
        rs(r) == spec_type_lval(l@, env@),
    decreases l,
{
    match l {
        Lval::Var(n) => var_type(n, env),
        Lval::Array(n, idx) => {
            let it = match check_exp(idx, env) {
                Ok(t) => t,
                Err(x) => return Err(x),
            };
            if it != Type::Int {
                return fail("Array index must be int");
            }
            match var_type(n, env) {
                Err(x) => Err(x),
                Ok(Ty::Array(t, _)) => Ok(Ty::Scalar(t)),
                Ok(Ty::Scalar(_)) => fail("Indexing non-array"),
            }
        },
    }
}

// ---------------------------------------------------------------------------
// Updates and declarations
// ---------------------------------------------------------------------------

/// A quantum update acts on qbits.
pub open spec fn spec_type_qupdate(q: QUpdateV, m: TyEnvV) -> Result<(), Seq<char>> {
    match q {
        QUpdateV::Gate(_, l) => match spec_type_lval(l, m) {
            Err(x) => Err(x),
            Ok(t) => if t matches Ty::Scalar(Type::Qbit) {
                Ok(())
            } else {
                Err("Gate requires qbit"@)
            },
        },
        QUpdateV::Swap(a, b) => match spec_type_lval(a, m) {
            Err(x) => Err(x),
            Ok(ta) => if !(ta matches Ty::Scalar(Type::Qbit)) {
                Err("Swap requires qbit"@)
            } else {
                match spec_type_lval(b, m) {
                    Err(x) => Err(x),
                    Ok(tb) => if tb matches Ty::Scalar(Type::Qbit) {
                        Ok(())
                    } else {
                        Err("Swap requires qbit"@)
                    },
                }
            },
        },
    }
}

fn is_qbit(t: Ty) -> (r: bool)
    ensures
        r == (t matches Ty::Scalar(Type::Qbit)),
{
    match t {
        Ty::Scalar(Type::Qbit) => true,
        _ => false,
    }
}

/// Checks a quantum update; see [`spec_type_qupdate`].
pub fn check_qupdate(q: &QUpdate, env: &TyEnv) -> (r: Result<(), String>)
    requires
        env.wf(),
    ensures
        rs(r) == spec_type_qupdate(q@, env@),
{
    match q {
        QUpdate::Gate(_, l) => {
            let t = match check_lval(l, env) {
                Ok(t) => t,
                Err(x) => return Err(x),
            };
            if is_qbit(t) {
                Ok(())
            } else {
                fail("Gate requires qbit")
            }
        },
        QUpdate::Swap(a, b) => {
            let ta = match check_lval(a, env) {
                Ok(t) => t,
                Err(x) => return Err(x),
            };
            if !is_qbit(ta) {
                return fail("Swap requires qbit");
            }
            let tb = match check_lval(b, env) {
                Ok(t) => t,
                Err(x) => return Err(x),
            };
            if is_qbit(tb) {
                Ok(())
            } else {
                fail("Swap requires qbit")
            }
        },
    }
}

/// The values of an array initializer fit the element type, checked in
/// order up to the first problem.
pub open spec fn spec_type_values(vs: Seq<ExpV>, ty: Type, m: TyEnvV) -> Result<(), Seq<char>>
    decreases vs.len(),
{
    if vs.len() == 0 {
        Ok(())
    } else {
        match spec_type_values(vs.drop_last(), ty, m) {
            Err(x) => Err(x),
            Ok(_) => match spec_type_exp(vs.last(), m) {
                Err(x) => Err(x),
                Ok(vt) => if larger(ty, vt) != ty {
                    Err("Array init type mismatch"@)
                } else {
                    Ok(())
                },
            },
        }
    }
}

/// The environment after a declaration.
pub open spec fn spec_type_decl(d: DeclarationV, m: TyEnvV) -> Result<TyEnvV, Seq<char>> {
    match d {
        DeclarationV::Uninit { ty, lval } => match lval {
            LvalV::Var(n) => Ok(declare(m, n, Some(Ty::Scalar(ty)))),
            LvalV::Array(n, _) => Ok(declare(m, n, Some(Ty::Array(ty, None)))),
        },
        DeclarationV::InitScalar { ty, name, value } => match spec_type_exp(value, m) {
            Err(x) => Err(x),
            Ok(vt) => if larger(ty, vt) != ty {
                Err("Invalid scalar initialization"@)
            } else {
                Ok(declare(m, name, Some(Ty::Scalar(ty))))
            },
        },
        DeclarationV::InitArray { ty, name, size, values } => match spec_type_exp(size, m) {
            Err(x) => Err(x),
            Ok(st) => if st != Type::Int {
                Err("Array size must be int"@)
            } else {
                match spec_type_values(values, ty, m) {
                    Err(x) => Err(x),
                    Ok(_) => Ok(
                        declare(
                            m,
                            name,
                            Some(
                                Ty::Array(
                                    ty,
                                    match size {
                                        ExpV::Int(i) => Some(i),
                                        _ => None,
                                    },
                                ),
                            ),
                        ),
                    ),
                }
            },
        },
    }
}

proof fn lemma_type_values_prefix_err(vs: Seq<ExpV>, ty: Type, m: TyEnvV, n: int, x: Seq<char>)
    requires
        0 <= n <= vs.len(),
        spec_type_values(vs.take(n), ty, m) == Err::<(), Seq<char>>(x),
    ensures
        spec_type_values(vs, ty, m) == Err::<(), Seq<char>>(x),
    decreases vs.len() - n,
{
    if n < vs.len() {
        assert(vs.take(n + 1).drop_last() =~= vs.take(n));
        lemma_type_values_prefix_err(vs, ty, m, n + 1, x);
    } else {
        assert(vs.take(n) =~= vs);
    }
}

fn type_values(vs: &Vec<Exp>, ty: Type, env: &TyEnv) -> (r: Result<(), String>)
    requires
        env.wf(),
    ensures
        rs(r) == spec_type_values(exps_view(vs@), ty, env@),
{
    let ghost all = exps_view(vs@);
    assert(all.take(0) =~= Seq::<ExpV>::empty());
    for k in 0..vs.len()
        invariant
            env.wf(),
            all == exps_view(vs@),
            spec_type_values(all.take(k as int), ty, env@) == Ok::<(), Seq<char>>(()),
    {
        assert(all.take(k + 1).drop_last() =~= all.take(k as int));
        assert(all.take(k + 1).last() == vs@[k as int]@);
        let vt = match check_exp(&vs[k], env) {
            Ok(t) => t,
            Err(x) => {
                proof {
                    lemma_type_values_prefix_err(all, ty, env@, k + 1, x@);
                }
                return Err(x);
            },
        };
        if fits_exec(ty, vt) && vt != ty {
            let r = fail("Array init type mismatch");
            proof {
                lemma_type_values_prefix_err(all, ty, env@, k + 1, "Array init type mismatch"@);
            }
            return r;
        }
    }
    assert(all.take(vs.len() as int) =~= all);
    Ok(())
}

/// Checks a declaration and enters the declared name; see
/// [`spec_type_decl`].
pub fn check_declaration(d: &Declaration, env: &mut TyEnv) -> (r: Result<(), String>)
    requires
        old(env).wf(),
    ensures
        final(env).wf(),
        match r {
            Ok(_) => spec_type_decl(d@, old(env)@) == Ok::<TyEnvV, Seq<char>>(final(env)@),
            Err(x) => spec_type_decl(d@, old(env)@) == Err::<TyEnvV, Seq<char>>(x@),
        },
{
    match d {
        Declaration::Uninit { ty, lval } => {
            let name = decl_name(d).clone();
            match lval {
                Lval::Var(_) => env.insert(name, Ty::Scalar(*ty)),
                Lval::Array(_, _) => env.insert(name, Ty::Array(*ty, None)),
            }
            Ok(())
        },
        Declaration::InitScalar { ty, name, value } => {
            let vt = match check_exp(value, env) {
                Ok(t) => t,
                Err(x) => return Err(x),
            };
            if fits_exec(*ty, vt) && vt != *ty {
                return fail("Invalid scalar initialization");
            }
            env.insert(name.clone(), Ty::Scalar(*ty));
            Ok(())
        },
        Declaration::InitArray { ty, name, size, values } => {
            let st = match check_exp(size, env) {
                Ok(t) => t,
                Err(x) => return Err(x),
            };
            if st != Type::Int {
                return fail("Array size must be int");
            }
            let size_val = match size {
                Exp::Int(i) => Some(*i),
                _ => None,
            };
            match type_values(values, *ty, env) {
                Ok(_) => {},
                Err(x) => return Err(x),
            }
            env.insert(name.clone(), Ty::Array(*ty, size_val));
            Ok(())
        },
    }
}

// ---------------------------------------------------------------------------
// Statements
// ---------------------------------------------------------------------------

/// An argument fits its parameter: a non-qbit scalar that fits a scalar
/// parameter, an array of the parameter's element type (of its size, when
/// both sizes are known), with an int size variable for a parameter whose
/// size is a name.
pub open spec fn spec_type_arg(p: ParamV, arg: LvalV, m: TyEnvV) -> Result<(), Seq<char>> {
    match spec_type_lval(arg, m) {
        Err(x) => Err(x),
        Ok(at) => match p {
            ParamV::Scalar { ty, .. } => match at {
                Ty::Scalar(t) => if t == Type::Qbit {
                    Err("Qbit not allowed as scalar argument"@)
                } else if larger(ty, t) != ty {
                    Err("Scalar argument type mismatch"@)
                } else {
                    Ok(())
                },
                _ => Err("Expected scalar argument"@),
            },
            ParamV::ArrayConst { ty, size, .. } => match at {
                Ty::Array(t, s) => if t != ty {
                    Err("ArrayConst type mismatch"@)
                } else if s matches Some(k) && k != size {
                    Err("ArrayConst size mismatch"@)
                } else {
                    Ok(())
                },
                _ => Err("Expected array argument"@),
            },
            ParamV::ArrayVar { ty, size, .. } => match at {
                Ty::Array(t, _) => if t != ty {
                    Err("ArrayVar type mismatch"@)
                } else {
                    match spec_var_type(size, m) {
                        Err(x) => Err(x),
                        Ok(st) => if st matches Ty::Scalar(Type::Int) {
                            Ok(())
                        } else {
                            Err("ArrayVar size variable must be int"@)
                        },
                    }
                },
                _ => Err("Expected array argument"@),
            },
        },
    }
}

/// The first `n` arguments fit their parameters, checked in order.
pub open spec fn spec_type_args(ps: Seq<ParamV>, args: Seq<LvalV>, m: TyEnvV, n: int) -> Result<
    (),
    Seq<char>,
>
    decreases n,
{
    if n <= 0 {
        Ok(())
    } else {
        match spec_type_args(ps, args, m, n - 1) {
            Err(x) => Err(x),
            Ok(_) => spec_type_arg(ps[n - 1], args[n - 1], m),
        }
    }
}

/// A call names a known procedure and passes it as many arguments as it
/// has parameters, each fitting its parameter.
pub open spec fn spec_type_call(name: Seq<char>, args: Seq<LvalV>, m: TyEnvV, procs: ProcsV) -> Result<
    (),
    Seq<char>,
> {
    match lookup(procs, name) {
        None => Err("Unknown procedure "@ + name),
        Some(p) => if p.params.len() != args.len() {
            Err("Argument count mismatch in call to "@ + name)
        } else {
            spec_type_args(p.params, args, m, args.len() as int)
        },
    }
}

fn type_arg(p: &ParameterDeclaration, arg: &Lval, env: &TyEnv) -> (r: Result<(), String>)
    requires
        env.wf(),
    ensures
        rs(r) == spec_type_arg(p@, arg@, env@),
{
    let at = match check_lval(arg, env) {
        Ok(t) => t,
        Err(x) => return Err(x),
    };
    match p {
        ParameterDeclaration::Scalar { ty, .. } => match at {
            Ty::Scalar(t) => if t == Type::Qbit {
                fail("Qbit not allowed as scalar argument")
            } else if fits_exec(*ty, t) && t != *ty {
                fail("Scalar argument type mismatch")
            } else {
                Ok(())
            },
            _ => fail("Expected scalar argument"),
        },
        ParameterDeclaration::ArrayConst { ty, size, .. } => match at {
            Ty::Array(t, s) => if t != *ty {
                fail("ArrayConst type mismatch")
            } else {
                match s {
                    Some(k) => if k != *size {
                        fail("ArrayConst size mismatch")
                    } else {
                        Ok(())
                    },
                    None => Ok(()),
                }
            },
            _ => fail("Expected array argument"),
        },
        ParameterDeclaration::ArrayVar { ty, size, .. } => match at {
            Ty::Array(t, _) => if t != *ty {
                fail("ArrayVar type mismatch")
            } else {
                match var_type(size, env) {
                    Err(x) => Err(x),
                    Ok(Ty::Scalar(Type::Int)) => Ok(()),
                    Ok(_) => fail("ArrayVar size variable must be int"),
                }
            },
            _ => fail("Expected array argument"),
        },
    }
}

proof fn lemma_type_args_prefix_err(ps: Seq<ParamV>, args: Seq<LvalV>, m: TyEnvV, n: int, k: int, x: Seq<char>)
    requires
        0 <= n <= k,
        spec_type_args(ps, args, m, n) == Err::<(), Seq<char>>(x),
    ensures
        spec_type_args(ps, args, m, k) == Err::<(), Seq<char>>(x),
    decreases k - n,
{
    if n < k {
        lemma_type_args_prefix_err(ps, args, m, n, k - 1, x);
    }
}

fn type_call(name: &String, args: &Vec<Lval>, env: &TyEnv, procs: &ProcMap) -> (r: Result<(), String>)
    requires
        env.wf(),
        procs.wf(),
    ensures
        rs(r) == spec_type_call(name@, lvals_view(args@), env@, procs@),
{
    let p = match procs.get(name.as_str()) {
        Some(p) => p,
        None => return fail_named("Unknown procedure ", name.as_str()),
    };
    if p.params.len() != args.len() {
        return fail_named("Argument count mismatch in call to ", name.as_str());
    }
    let ghost ps = params_view(p.params@);
    let ghost avs = lvals_view(args@);
    for k in 0..args.len()
        invariant
            env.wf(),
            p.params@.len() == args@.len(),
            lookup(procs@, name@) == Some(p@),
            ps == params_view(p.params@),
            avs == lvals_view(args@),
            spec_type_args(ps, avs, env@, k as int) == Ok::<(), Seq<char>>(()),
    {
        assert(ps[k as int] == p.params@[k as int]@);
        assert(avs[k as int] == args@[k as int]@);
        match type_arg(&p.params[k], &args[k], env) {
            Ok(_) => {},
            Err(x) => {
                proof {
                    lemma_type_args_prefix_err(ps, avs, env@, k + 1, args@.len() as int, x@);
                }
                return Err(x);
            },
        }
    }
    Ok(())
}

/// The environment after declarations in order, up to the first problem.
pub open spec fn spec_type_decls(ds: Seq<DeclarationV>, m: TyEnvV) -> Result<TyEnvV, Seq<char>>
    decreases ds.len(),
{
    if ds.len() == 0 {
        Ok(m)
    } else {
        match spec_type_decls(ds.drop_last(), m) {
            Err(x) => Err(x),
            Ok(m1) => spec_type_decl(ds.last(), m1),
        }
    }
}

/// The first problem of a statement, if any: assignments of fitting
/// classical scalars, quantum updates on qbits (a controlled one also
/// controlled by a qbit), calls that fit the called procedure,
/// measurements from a qbit into a cbit, cbit conditions; a block is
/// checked in a scope of its own.
pub open spec fn spec_type_stmt(s: StatementV, m: TyEnvV, procs: ProcsV) -> Result<(), Seq<char>>
    decreases s,
{
    match s {
        StatementV::Assignment(l, e) => match spec_type_lval(l, m) {
            Err(x) => Err(x),
            Ok(lt) => match spec_type_exp(e, m) {
                Err(x) => Err(x),
                Ok(et) => match lt {
                    Ty::Scalar(ls) => if ls == Type::Qbit || et == Type::Qbit {
                        Err("Qbits not allowed in assignment"@)
                    } else if larger(ls, et) != ls {
                        Err("Cannot assign "@ + type_label(et) + " to "@ + type_label(ls))
                    } else {
                        Ok(())
                    },
                    _ => Err("Assignment target must be scalar or array element"@),
                },
            },
        },
        StatementV::QUpdate(q) => spec_type_qupdate(q, m),
        StatementV::ConditionalQUpdate(q, c) => match spec_type_qupdate(q, m) {
            Err(x) => Err(x),
            Ok(_) => match spec_type_lval(c, m) {
                Err(x) => Err(x),
                Ok(ct) => if ct matches Ty::Scalar(Type::Qbit) {
                    Ok(())
                } else {
                    Err("Conditional QUpdate requires qbit"@)
                },
            },
        },
        StatementV::ProcedureCall(name, args) => spec_type_call(name, args, m, procs),
        StatementV::Measure(q, c) => match spec_type_lval(q, m) {
            Err(x) => Err(x),
            Ok(qt) => if !(qt matches Ty::Scalar(Type::Qbit)) {
                Err("Measure requires qbit"@)
            } else {
                match spec_type_lval(c, m) {
                    Err(x) => Err(x),
                    Ok(ct) => if ct matches Ty::Scalar(Type::Cbit) {
                        Ok(())
                    } else {
                        Err("Measure requires cbit"@)
                    },
                }
            },
        },
        StatementV::If(e, t, f) => match spec_type_exp(e, m) {
            Err(x) => Err(x),
            Ok(ct) => if ct != Type::Cbit {
                Err("If condition must be cbit"@)
            } else {
                match spec_type_stmt(*t, m, procs) {
                    Err(x) => Err(x),
                    Ok(_) => spec_type_stmt(*f, m, procs),
                }
            },
        },
        StatementV::While(e, b) => match spec_type_exp(e, m) {
            Err(x) => Err(x),
            Ok(ct) => if ct != Type::Cbit {
                Err("While condition must be cbit"@)
            } else {
                spec_type_stmt(*b, m, procs)
            },
        },
        StatementV::Block(ds, ss) => match spec_type_decls(ds, m.push(Map::empty())) {
            Err(x) => Err(x),
            Ok(m2) => spec_type_stmts(ss, m2, procs),
        },
    }
}

/// The first problem of statements in order, if any.
pub open spec fn spec_type_stmts(ss: Seq<StatementV>, m: TyEnvV, procs: ProcsV) -> Result<(), Seq<char>>
    decreases ss,
{
    if ss.len() == 0 {
        Ok(())
    } else {
        match spec_type_stmts(ss.drop_last(), m, procs) {
            Err(x) => Err(x),
            Ok(_) => spec_type_stmt(ss.last(), m, procs),
        }
    }
}

proof fn lemma_type_decls_prefix_err(ds: Seq<DeclarationV>, m: TyEnvV, n: int, x: Seq<char>)
    requires
        0 <= n <= ds.len(),
        spec_type_decls(ds.take(n), m) == Err::<TyEnvV, Seq<char>>(x),
    ensures
        spec_type_decls(ds, m) == Err::<TyEnvV, Seq<char>>(x),
    decreases ds.len() - n,
{
    if n < ds.len() {
        assert(ds.take(n + 1).drop_last() =~= ds.take(n));
        lemma_type_decls_prefix_err(ds, m, n + 1, x);
    } else {
        assert(ds.take(n) =~= ds);
    }
}

proof fn lemma_type_stmts_prefix_err(ss: Seq<StatementV>, m: TyEnvV, procs: ProcsV, n: int, x: Seq<char>)
    requires
        0 <= n <= ss.len(),
        spec_type_stmts(ss.take(n), m, procs) == Err::<(), Seq<char>>(x),
    ensures
        spec_type_stmts(ss, m, procs) == Err::<(), Seq<char>>(x),
    decreases ss.len() - n,
{
    if n < ss.len() {
        assert(ss.take(n + 1).drop_last() =~= ss.take(n));
        lemma_type_stmts_prefix_err(ss, m, procs, n + 1, x);
    } else {
        assert(ss.take(n) =~= ss);
    }
}

/// Declarations change only the innermost scope.
proof fn lemma_type_decls_inner(ds: Seq<DeclarationV>, m: TyEnvV)
    requires
        m.len() > 0,
    ensures
        spec_type_decls(ds, m) matches Ok(m2) ==> m2.len() == m.len() && m2.drop_last() == m.drop_last(),
    decreases ds.len(),
{
    if ds.len() > 0 {
        lemma_type_decls_inner(ds.drop_last(), m);
        if let Ok(m1) = spec_type_decls(ds.drop_last(), m) {
            if let Ok(m2) = spec_type_decl(ds.last(), m1) {
                assert(m2.drop_last() =~= m1.drop_last());
            }
        }
    }
}

fn type_declarations(ds: &Vec<Declaration>, env: &mut TyEnv) -> (r: Result<(), String>)
    requires
        old(env).wf(),
    ensures
        final(env).wf(),
        match r {
            Ok(_) => spec_type_decls(decls_view(ds@), old(env)@) == Ok::<TyEnvV, Seq<char>>(final(env)@),
            Err(x) => spec_type_decls(decls_view(ds@), old(env)@) == Err::<TyEnvV, Seq<char>>(x@),
        },
{
    let ghost all = decls_view(ds@);
    let ghost m0 = old(env)@;
    assert(all.take(0) =~= Seq::<DeclarationV>::empty());
    for k in 0..ds.len()
        invariant
            env.wf(),
            all == decls_view(ds@),
            m0 == old(env)@,
            spec_type_decls(all.take(k as int), m0) == Ok::<TyEnvV, Seq<char>>(env@),
    {
        assert(all.take(k + 1).drop_last() =~= all.take(k as int));
        assert(all.take(k + 1).last() == ds@[k as int]@);
        match check_declaration(&ds[k], env) {
            Ok(_) => {},
            Err(x) => {
                proof {
                    lemma_type_decls_prefix_err(all, m0, k + 1, x@);
                }
                return Err(x);
            },
        }
    }
    assert(all.take(ds.len() as int) =~= all);
    Ok(())
}

fn type_statements(ss: &Vec<Statement>, env: &mut TyEnv, procs: &ProcMap) -> (r: Result<(), String>)
    requires
        old(env).wf(),
        procs.wf(),
    ensures
        final(env).wf(),
        r is Ok ==> final(env)@ == old(env)@,
        rs(r) == spec_type_stmts(stmts_view(ss@), old(env)@, procs@),
    decreases ss,
{
    let ghost all = stmts_view(ss@);
    let ghost m0 = old(env)@;
    assert(all.take(0) =~= Seq::<StatementV>::empty());
    for k in 0..ss.len()
        invariant
            env.wf(),
            procs.wf(),
            all == stmts_view(ss@),
            m0 == old(env)@,
            env@ == m0,
            spec_type_stmts(all.take(k as int), m0, procs@) == Ok::<(), Seq<char>>(()),
    {
        assert(all.take(k + 1).drop_last() =~= all.take(k as int));
        assert(all.take(k + 1).last() == ss@[k as int]@);
        proof {
            assert(decreases_to!(ss => ss@));
            assert(decreases_to!(ss@ => ss@[k as int]));
        }
        match check_statement(&ss[k], env, procs) {
            Ok(_) => {},
            Err(x) => {
                proof {
                    lemma_type_stmts_prefix_err(all, m0, procs@, k + 1, x@);
                }
                return Err(x);
            },
        }
    }
    assert(all.take(ss.len() as int) =~= all);
    Ok(())
}

fn is_cbit(t: Ty) -> (r: bool)
    ensures
        r == (t matches Ty::Scalar(Type::Cbit)),
{
    match t {
        Ty::Scalar(Type::Cbit) => true,
        _ => false,
    }
}

/// Checks a statement; on success the environment is as it was; see
/// [`spec_type_stmt`].
pub fn check_statement(s: &Statement, env: &mut TyEnv, procs: &ProcMap) -> (r: Result<(), String>)
    requires
        old(env).wf(),
        procs.wf(),
    ensures
        final(env).wf(),
        r is Ok ==> final(env)@ == old(env)@,
        rs(r) == spec_type_stmt(s@, old(env)@, procs@),
    decreases s,
{
    match s {
        Statement::Assignment(l, e) => {
            let lt = match check_lval(l, env) {
                Ok(t) => t,
                Err(x) => return Err(x),
            };
            let et = match check_exp(e, env) {
                Ok(t) => t,
                Err(x) => return Err(x),
            };
            match lt {
                Ty::Scalar(ls) => if ls == Type::Qbit || et == Type::Qbit {
                    fail("Qbits not allowed in assignment")
                } else if fits_exec(ls, et) && et != ls {
                    let mut m = String::from_str("Cannot assign ");
                    m.append(type_label_exec(et));
                    m.append(" to ");
                    m.append(type_label_exec(ls));
                    Err(m)
                } else {
                    Ok(())
                },
                _ => fail("Assignment target must be scalar or array element"),
            }
        },
        Statement::QUpdate(q) => check_qupdate(q, env),
        Statement::ConditionalQUpdate(q, c) => {
            match check_qupdate(q, env) {
                Ok(_) => {},
                Err(x) => return Err(x),
            }
            let ct = match check_lval(c, env) {
                Ok(t) => t,
                Err(x) => return Err(x),
            };
            if is_qbit(ct) {
                Ok(())
            } else {
                fail("Conditional QUpdate requires qbit")
            }
        },
        Statement::ProcedureCall(name, args) => type_call(name, args, env, procs),
        Statement::Measure(q, c) => {
            let qt = match check_lval(q, env) {
                Ok(t) => t,
                Err(x) => return Err(x),
            };
            if !is_qbit(qt) {
                return fail("Measure requires qbit");
            }
            let ct = match check_lval(c, env) {
                Ok(t) => t,
                Err(x) => return Err(x),
            };
            if is_cbit(ct) {
                Ok(())
            } else {
                fail("Measure requires cbit")
            }
        },
        Statement::If(e, t, f) => {
            let ct = match check_exp(e, env) {
                Ok(t) => t,
                Err(x) => return Err(x),
            };
            if ct != Type::Cbit {
                return fail("If condition must be cbit");
            }
            match check_statement(t, env, procs) {
                Ok(_) => {},
                Err(x) => return Err(x),
            }
            check_statement(f, env, procs)
        },
        Statement::While(e, b) => {
            let ct = match check_exp(e, env) {
                Ok(t) => t,
                Err(x) => return Err(x),
            };
            if ct != Type::Cbit {
                return fail("While condition must be cbit");
            }
            check_statement(b, env, procs)
        },
        Statement::Block(ds, ss) => {
            proof {
                lemma_block_view(ds@, ss@, *s);
            }
            let ghost m0 = env@;
            env.push_empty_scope();
            proof {
                lemma_type_decls_inner(decls_view(ds@), m0.push(Map::empty()));
            }
            match type_declarations(ds, env) {
                Ok(_) => {},
                Err(x) => return Err(x),
            }
            match type_statements(ss, env, procs) {
                Ok(_) => {},
                Err(x) => return Err(x),
            }
            env.pop_scope();
            assert(env@ =~= m0);
            Ok(())
        },
    }
}

// ---------------------------------------------------------------------------
// Procedures and programs
// ---------------------------------------------------------------------------

/// The environment of a procedure's parameters, entered in order: a
/// scalar with its type, an array with its type and fixed size, an array
/// whose size is a name with that name as an int before it.
pub open spec fn param_env(ps: Seq<ParamV>) -> TyEnvV
    decreases ps.len(),
{
    if ps.len() == 0 {
        seq![Map::empty()]
    } else {
        let m = param_env(ps.drop_last());
        match ps.last() {
            ParamV::Scalar { ty, name } => declare(m, name, Some(Ty::Scalar(ty))),
            ParamV::ArrayConst { ty, name, size } => declare(m, name, Some(Ty::Array(ty, Some(size)))),
            ParamV::ArrayVar { ty, name, size } => declare(
                declare(m, size, Some(Ty::Scalar(Type::Int))),
                name,
                Some(Ty::Array(ty, None)),
            ),
        }
    }
}

/// A procedure's body is checked in the environment of its parameters.
pub open spec fn spec_type_procedure(p: ProcedureV, procs: ProcsV) -> Result<(), Seq<char>> {
    spec_type_stmt(p.body, param_env(p.params), procs)
}

/// Checks a procedure; see [`spec_type_procedure`].
pub fn check_procedure(p: &Procedure, procs: &ProcMap) -> (r: Result<(), String>)
    requires
        procs.wf(),
    ensures
        rs(r) == spec_type_procedure(p@, procs@),
{
    let mut env: TyEnv = Env::new();
    let ghost pv = params_view(p.params@);
    assert(pv.take(0) =~= Seq::<ParamV>::empty());
    for k in 0..p.params.len()
        invariant
            env.wf(),
            pv == params_view(p.params@),
            env@ == param_env(pv.take(k as int)),
    {
        assert(pv.take(k + 1).drop_last() =~= pv.take(k as int));
        assert(pv.take(k + 1).last() == p.params@[k as int]@);
        match &p.params[k] {
            ParameterDeclaration::Scalar { ty, name } => {
                env.insert(name.clone(), Ty::Scalar(*ty));
            },
            ParameterDeclaration::ArrayConst { ty, name, size } => {
                env.insert(name.clone(), Ty::Array(*ty, Some(*size)));
            },
            ParameterDeclaration::ArrayVar { ty, name, size } => {
                env.insert(size.clone(), Ty::Scalar(Type::Int));
                env.insert(name.clone(), Ty::Array(*ty, None));
            },
        }
    }
    assert(pv.take(p.params.len() as int) =~= pv);
    check_statement(&p.body, &mut env, procs)
}

/// The table of procedures by name; a second procedure of the same name is
/// refused.
pub open spec fn proc_table(ps: Seq<ProcedureV>) -> Result<Map<Seq<char>, Option<ProcedureV>>, Seq<char>>
    decreases ps.len(),
{
    if ps.len() == 0 {
        Ok(Map::empty())
    } else {
        match proc_table(ps.drop_last()) {
            Err(x) => Err(x),
            Ok(t) => if t.contains_key(ps.last().name) {
                Err("Duplicate procedure "@ + ps.last().name)
            } else {
                Ok(t.insert(ps.last().name, Some(ps.last())))
            },
        }
    }
}

/// The first problem of the procedures in order, if any.
pub open spec fn spec_type_procs(ps: Seq<ProcedureV>, procs: ProcsV) -> Result<(), Seq<char>>
    decreases ps.len(),
{
    if ps.len() == 0 {
        Ok(())
    } else {
        match spec_type_procs(ps.drop_last(), procs) {
            Err(x) => Err(x),
            Ok(_) => spec_type_procedure(ps.last(), procs),
        }
    }
}

/// The first problem of a program, if any: the table of its procedures is
/// made, then each procedure is checked against it.
pub open spec fn spec_type_program(p: ProgramV) -> Result<(), Seq<char>> {
    match proc_table(p.procedures) {
        Err(x) => Err(x),
        Ok(t) => spec_type_procs(p.procedures, seq![t]),
    }
}

proof fn lemma_proc_table_prefix_err(ps: Seq<ProcedureV>, n: int, x: Seq<char>)
    requires
        0 <= n <= ps.len(),
        proc_table(ps.take(n)) == Err::<Map<Seq<char>, Option<ProcedureV>>, Seq<char>>(x),
    ensures
        proc_table(ps) == Err::<Map<Seq<char>, Option<ProcedureV>>, Seq<char>>(x),
    decreases ps.len() - n,
{
    if n < ps.len() {
        assert(ps.take(n + 1).drop_last() =~= ps.take(n));
        lemma_proc_table_prefix_err(ps, n + 1, x);
    } else {
        assert(ps.take(n) =~= ps);
    }
}

proof fn lemma_type_procs_prefix_err(ps: Seq<ProcedureV>, procs: ProcsV, n: int, x: Seq<char>)
    requires
        0 <= n <= ps.len(),
        spec_type_procs(ps.take(n), procs) == Err::<(), Seq<char>>(x),
    ensures
        spec_type_procs(ps, procs) == Err::<(), Seq<char>>(x),
    decreases ps.len() - n,
{
    if n < ps.len() {
        assert(ps.take(n + 1).drop_last() =~= ps.take(n));
        lemma_type_procs_prefix_err(ps, procs, n + 1, x);
    } else {
        assert(ps.take(n) =~= ps);
    }
}

/// Checks a program; see [`spec_type_program`].
pub fn check_program(p: &Program) -> (r: Result<(), String>)
    ensures
        rs(r) == spec_type_program(p@),
{
    let ghost all = procs_view(p.procedures@);
    let mut proc_env: ProcMap = Env::new();
    let ghost mut t: Map<Seq<char>, Option<ProcedureV>> = Map::empty();
    assert(all.take(0) =~= Seq::<ProcedureV>::empty());
    assert(proc_env@ =~= seq![t]);
    for k in 0..p.procedures.len()
        invariant
            proc_env.wf(),
            all == procs_view(p.procedures@),
            proc_env@ == seq![t],
            proc_table(all.take(k as int)) == Ok::<Map<Seq<char>, Option<ProcedureV>>, Seq<char>>(t),
    {
        assert(all.take(k + 1).drop_last() =~= all.take(k as int));
        assert(all.take(k + 1).last() == p.procedures@[k as int]@);
        let name = &p.procedures[k].name;
        assert(crate::env::declares(proc_env@, name@) == t.contains_key(name@)) by {
            if t.contains_key(name@) {
                assert(proc_env@[0].dom().contains(name@));
            }
        }
        if proc_env.contains(name.as_str()) {
            let r: Result<(), String> = fail_named("Duplicate procedure ", name.as_str());
            proof {
                lemma_proc_table_prefix_err(all, k + 1, "Duplicate procedure "@ + name@);
            }
            return r;
        }
        let q = copy_procedure(&p.procedures[k]);
        proc_env.insert(name.clone(), q);
        proof {
            t = t.insert(name@, Some(p.procedures@[k as int]@));
        }
        assert(proc_env@ =~= seq![t]);
    }
    assert(all.take(p.procedures.len() as int) =~= all);
    assert(all.take(0) =~= Seq::<ProcedureV>::empty());
    for k in 0..p.procedures.len()
        invariant
            proc_env.wf(),
            all == procs_view(p.procedures@),
            proc_env@ == seq![t],
            proc_table(all) == Ok::<Map<Seq<char>, Option<ProcedureV>>, Seq<char>>(t),
            spec_type_procs(all.take(k as int), seq![t]) == Ok::<(), Seq<char>>(()),
    {
        assert(all.take(k + 1).drop_last() =~= all.take(k as int));
        assert(all.take(k + 1).last() == p.procedures@[k as int]@);
        match check_procedure(&p.procedures[k], &proc_env) {
            Ok(_) => {},
            Err(x) => {
                proof {
                    lemma_type_procs_prefix_err(all, seq![t], k + 1, x@);
                }
                return Err(x);
            },
        }
    }
    assert(all.take(p.procedures.len() as int) =~= all);
    Ok(())
}

} // verus!

verus! {

// ---------------------------------------------------------------------------
// Typing of well-typed input
// ---------------------------------------------------------------------------

/// The type of an expression that type checks; see [`spec_type_exp`].
pub fn type_exp(e: &Exp, env: &TyEnv) -> (r: Type)
    requires
        env.wf(),
        spec_type_exp(e@, env@) is Ok,
    ensures
        spec_type_exp(e@, env@) == Ok::<Type, Seq<char>>(r),
{
    check_exp(e, env).unwrap()
}

/// The type of a location that type checks; see [`spec_type_lval`].
pub fn type_lval(l: &Lval, env: &TyEnv) -> (r: Ty)
    requires
        env.wf(),
        spec_type_lval(l@, env@) is Ok,
    ensures
        spec_type_lval(l@, env@) == Ok::<Ty, Seq<char>>(r),
{
    check_lval(l, env).unwrap()
}

/// Types a quantum update that acts on qbits; see [`spec_type_qupdate`].
pub fn type_qupdate(q: &QUpdate, env: &TyEnv)
    requires
        env.wf(),
        spec_type_qupdate(q@, env@) is Ok,
{
    check_qupdate(q, env).unwrap()
}

/// Enters a declaration that type checks; see [`spec_type_decl`].
pub fn type_declaration(d: &Declaration, env: &mut TyEnv)
    requires
        old(env).wf(),
        spec_type_decl(d@, old(env)@) is Ok,
    ensures
        final(env).wf(),
        spec_type_decl(d@, old(env)@) == Ok::<TyEnvV, Seq<char>>(final(env)@),
{
    check_declaration(d, env).unwrap()
}

/// Types a statement that type checks, leaving the environment as it was;
/// see [`spec_type_stmt`].
pub fn type_statement(s: &Statement, env: &mut TyEnv, procs: &ProcMap)
    requires
        old(env).wf(),
        procs.wf(),
        spec_type_stmt(s@, old(env)@, procs@) is Ok,
    ensures
        final(env).wf(),
        final(env)@ == old(env)@,
{
    check_statement(s, env, procs).unwrap()
}

/// Types a procedure that type checks; see [`spec_type_procedure`].
pub fn type_procedure(p: &Procedure, procs: &ProcMap)
    requires
        procs.wf(),
        spec_type_procedure(p@, procs@) is Ok,
{
    check_procedure(p, procs).unwrap()
}

/// Types a program that type checks; see [`spec_type_program`].
pub fn type_program(p: &Program)
    requires
        spec_type_program(p@) is Ok,
{
    check_program(p).unwrap()
}

} // verus!

verus! {

// ---------------------------------------------------------------------------
// Typing agrees with evaluation
// ---------------------------------------------------------------------------

/// The type of a scalar value.
pub open spec fn scalar_type(v: Scalar) -> Type {
    match v {
        Scalar::Int(_) => Type::Int,
        Scalar::Float(_) => Type::Float,
        Scalar::Cbit(_) => Type::Cbit,
    }
}

/// The element type of an array value.
pub open spec fn array_type(arr: ArrayV) -> Type {
    match arr {
        ArrayV::Int(_) => Type::Int,
        ArrayV::Float(_) => Type::Float,
        ArrayV::Cbit(_) => Type::Cbit,
    }
}

/// Whether every value in `vm` has the type that `tm` gives its name.
pub open spec fn values_typed(vm: EnvV, tm: TyEnvV) -> bool {
    forall|n: Seq<char>|
        match (#[trigger] lookup(tm, n), lookup(vm, n)) {
            (Some(Ty::Scalar(t)), Some(ValueV::Scalar(v))) => scalar_type(v) == t,
            (Some(Ty::Array(t, _)), Some(ValueV::Array(arr))) => array_type(arr) == t,
            _ => true,
        }
}

/// The comparison operators are none of the other operators.
proof fn lemma_comparisons_distinct()
    ensures
        "<"@ != "+"@ && "<"@ != "-"@ && "<"@ != "*"@ && "<"@ != "/"@ && "<"@ != "%"@ && "<"@ != "&"@
            && "<"@ != "|"@ && "<"@ != "^"@ && "<"@ != "xor"@ && "<"@ != "**"@,
        "=="@ != "+"@ && "=="@ != "-"@ && "=="@ != "*"@ && "=="@ != "/"@ && "=="@ != "%"@ && "=="@
            != "&"@ && "=="@ != "|"@ && "=="@ != "^"@ && "=="@ != "xor"@ && "=="@ != "**"@,
        "<"@ != "=="@,
{
    reveal_strlit("+");
    reveal_strlit("-");
    reveal_strlit("*");
    reveal_strlit("/");
    reveal_strlit("%");
    reveal_strlit("&");
    reveal_strlit("|");
    reveal_strlit("^");
    reveal_strlit("xor");
    reveal_strlit("<");
    reveal_strlit("==");
    reveal_strlit("**");
    assert("<"@[0] == '<');
    assert("=="@.len() == 2);
    assert("**"@.len() == 2);
    assert("xor"@.len() == 3);
    assert("+"@[0] == '+' && "-"@[0] == '-' && "*"@[0] == '*' && "/"@[0] == '/' && "%"@[0] == '%');
    assert("&"@[0] == '&' && "|"@[0] == '|' && "^"@[0] == '^');
    assert("=="@[0] == '=' && "**"@[0] == '*');
}

proof fn lemma_binop_result_type<A: Fn(FloatOp) -> u64>(a: &A, op: Seq<char>, l: Scalar, r: Scalar)
    ensures
        spec_eval_binop(a, op, l, r) matches Ok(w) ==> scalar_type(w) == binop_type(
            op,
            scalar_type(l),
            scalar_type(r),
        ),
{
    lemma_comparisons_distinct();
    match (l, r) {
        (Scalar::Int(x), Scalar::Int(y)) => {
        },
        (Scalar::Int(x), Scalar::Float(y)) => {
            let fx = crate::value::float_of(a, FloatOp::FromInt(x));
            assert(spec_float_binop(a, op, fx, y) matches Ok(w) ==> w is Float && op != "<"@ && op != "=="@);
        },
        (Scalar::Float(x), Scalar::Int(y)) => {
            let fy = crate::value::float_of(a, FloatOp::FromInt(y));
            assert(spec_float_binop(a, op, x, fy) matches Ok(w) ==> w is Float && op != "<"@ && op != "=="@);
        },
        (Scalar::Float(x), Scalar::Float(y)) => {
            assert(spec_float_binop(a, op, x, y) matches Ok(w) ==> w is Float && op != "<"@ && op != "=="@);
        },
        _ => {},
    }
}

/// Typing agrees with evaluation: in an environment whose values have the
/// types the typing environment gives them, an expression that types as `t`
/// and evaluates to a value evaluates to a value of type `t` (a comparison,
/// for one, to a cbit).
pub proof fn lemma_typing_sound<A: Fn(FloatOp) -> u64>(a: &A, e: ExpV, tm: TyEnvV, vm: EnvV)
    requires
        values_typed(vm, tm),
    ensures
        spec_type_exp(e, tm) matches Ok(t) ==> (spec_interp_exp(a, e, vm) matches Ok(Some(v)) ==> scalar_type(
            v,
        ) == t),
    decreases e,
{
    reveal_strlit("pi");
    reveal_strlit("true");
    reveal_strlit("false");
    assert("pi"@[0] == 'p' && "true"@[0] == 't' && "false"@[0] == 'f');
    match e {
        ExpV::Lval(l) => {
            lemma_typing_sound_lval(a, l, tm, vm);
        },
        ExpV::Unary(op, e1) => {
            lemma_typing_sound(a, *e1, tm, vm);
            reveal_strlit("-");
            reveal_strlit("~");
            reveal_strlit("not");
        },
        ExpV::Binary(e1, op, e2) => {
            lemma_typing_sound(a, *e1, tm, vm);
            lemma_typing_sound(a, *e2, tm, vm);
            if let (Ok(Some(v1)), Ok(Some(v2))) = (spec_interp_exp(a, *e1, vm), spec_interp_exp(a, *e2, vm)) {
                lemma_binop_result_type(a, op, v1, v2);
            }
        },
        ExpV::Builtin1(f, e1) => {
            lemma_typing_sound(a, *e1, tm, vm);
        },
        ExpV::Builtin2(f, e1, e2) => {
            lemma_typing_sound(a, *e1, tm, vm);
            lemma_typing_sound(a, *e2, tm, vm);
        },
        _ => {},
    }
}

/// A location that types as a scalar of type `t` and evaluates to a value
/// evaluates to a value of type `t`.
pub proof fn lemma_typing_sound_lval<A: Fn(FloatOp) -> u64>(a: &A, l: LvalV, tm: TyEnvV, vm: EnvV)
    requires
        values_typed(vm, tm),
    ensures
        spec_type_lval(l, tm) matches Ok(Ty::Scalar(t)) ==> (spec_interp_lval(a, l, vm) matches Ok(Some(v))
            ==> scalar_type(v) == t),
    decreases l,
{
    match l {
        LvalV::Var(n) => {
            assert(match (lookup(tm, n), lookup(vm, n)) {
                (Some(Ty::Scalar(t)), Some(ValueV::Scalar(v))) => scalar_type(v) == t,
                (Some(Ty::Array(t, _)), Some(ValueV::Array(arr))) => array_type(arr) == t,
                _ => true,
            });
        },
        LvalV::Array(n, idx) => {
            lemma_typing_sound(a, *idx, tm, vm);
            assert(match (lookup(tm, n), lookup(vm, n)) {
                (Some(Ty::Scalar(t)), Some(ValueV::Scalar(v))) => scalar_type(v) == t,
                (Some(Ty::Array(t, _)), Some(ValueV::Array(arr))) => array_type(arr) == t,
                _ => true,
            });
        },
    }
}

} // verus!
