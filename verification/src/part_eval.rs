//! Partial evaluation: folds what is known at compile time, tracks the
//! values of classical variables, unrolls loops whose condition is known,
//! takes the known branch of conditionals, and inlines procedure calls.
//!
//! The statement-level work is shared with [`crate::reduce`], which differs
//! in a few choices gathered in [`PeCfg`].
use vstd::prelude::*;
use crate::ast::{
    Declaration,
    DeclarationV,
    Exp,
    ExpV,
    Gate,
    GateV,
    Lval,
    LvalV,
    ParamV,
    ParameterDeclaration,
    Procedure,
    ProcedureV,
    Program,
    ProgramV,
    QUpdate,
    QUpdateV,
    Statement,
    StatementV,
    Type,
    copy_decl,
    copy_exp,
    copy_lval,
    copy_procedure,
    copy_stmt,
    decl_name,
    decl_name_of,
    decls_view,
    exps_view,
    lemma_block_view,
    lval_name,
    lval_name_of,
    lvals_view,
    param_name,
    param_name_of,
    params_view,
    procs_view,
    stmts_view,
};
use crate::env::{Env, declare, assign, lookup, find_value};
use crate::interpret::{EnvV, ValueEnv, try_interpret_exp, try_interpret_lval, spec_interp_exp, spec_interp_lval};
use crate::value::{
    Array,
    ArrayV,
    EvalError,
    FloatOp,
    Scalar,
    Value,
    ValueV,
    arith_ok,
    try_eval_binop,
    try_eval_fun_1,
    try_eval_fun_2,
    try_eval_unop,
    is_const_node,
    make_const_node,
    scalar_to_bool,
    scalar_to_f64,
    scalar_to_i64,
    try_scalar_to_scalar,
    scalar_to_usize,
    try_scalars_to_array,
    spec_eval_binop,
    spec_eval_fun_1,
    spec_eval_fun_2,
    spec_eval_unop,
    spec_is_const_node,
    spec_make_const_node,
    spec_scalar_to_bool,
    spec_scalar_to_f64,
    spec_scalar_to_i64,
    spec_scalar_to_scalar,
    spec_scalar_to_usize,
    spec_scalars_to_array,
};
use crate::vars::{NameSet, stmts_vars, used_vars_all};
use crate::text::text_eq;

verus! {

/// How many times a loop with a known condition is unrolled.
pub const MAX_UNROLL: usize = 1000;

/// How deeply procedure calls are inlined into one another: as deeply as a
/// count in the machine's words reaches. No program is inlined that deep
/// (the call stack gives out long before), so in effect calls are inlined
/// without a bound; the bound only makes partial evaluation a function that
/// ends on every input, where inlining a procedure that keeps calling itself
/// would go on for ever.
pub const MAX_INLINE: usize = usize::MAX;

/// A table of procedures by name (a single scope; a later entry replaces an
/// earlier one of the same name).
pub type ProcMap = Env<Procedure>;

pub type ProcsV = Seq<Map<Seq<char>, Option<ProcedureV>>>;

/// The choices in which partial evaluation and reduction differ.
pub struct PeCfg {
    /// The procedures available for inlining, if any.
    pub procs: Option<ProcsV>,
    /// Reduction: a call of an unknown procedure is kept; a nested block is
    /// merged unless it redeclares a name among all declarations merged so
    /// far; assignments whose target is never used are dropped.
    /// Otherwise a call of an unknown procedure is refused; a nested block
    /// is merged unless it redeclares a name of the enclosing block's own
    /// declarations; with procedures, assignments of constants are dropped.
    pub reduce: bool,
    /// How many times a loop is unrolled.
    pub limit: nat,
}

// ---------------------------------------------------------------------------
// Specification
// ---------------------------------------------------------------------------

/// The value of a constant node.
pub open spec fn known(r: Result<Option<Scalar>, EvalError>) -> Result<Scalar, EvalError> {
    match r {
        Ok(Some(v)) => Ok(v),
        Ok(None) => Err(EvalError::MissingValue),
        Err(x) => Err(x),
    }
}

pub open spec fn folded(r: Result<Scalar, EvalError>) -> Result<ExpV, EvalError> {
    match r {
        Ok(v) => Ok(spec_make_const_node(v)),
        Err(x) => Err(x),
    }
}

/// The partial evaluation of an expression: a location with a known value
/// becomes a constant, an operator or built-in applied to constants is
/// computed, anything else is rebuilt from its partially evaluated parts.
pub open spec fn spec_pe_exp<A: Fn(FloatOp) -> u64>(a: &A, e: ExpV, m: EnvV) -> Result<
    ExpV,
    EvalError,
>
    decreases e,
{
    match e {
        ExpV::Int(_) | ExpV::Float(_) | ExpV::NamedConst(_) => Ok(e),
        ExpV::Lval(l) => match spec_pe_lval(a, l, m) {
            Err(x) => Err(x),
            Ok(l2) => match spec_interp_lval(a, l2, m) {
                Err(x) => Err(x),
                Ok(Some(v)) => Ok(spec_make_const_node(v)),
                Ok(None) => Ok(ExpV::Lval(l2)),
            },
        },
        ExpV::Unary(op, e1) => match spec_pe_exp(a, *e1, m) {
            Err(x) => Err(x),
            Ok(x1) => unary_rest(a, op, x1, m),
        },
        ExpV::Binary(e1, op, e2) => match spec_pe_exp(a, *e1, m) {
            Err(x) => Err(x),
            Ok(x1) => match spec_pe_exp(a, *e2, m) {
                Err(x) => Err(x),
                Ok(x2) => binary_rest(a, op, x1, x2, m),
            },
        },
        ExpV::Builtin1(f, e1) => match spec_pe_exp(a, *e1, m) {
            Err(x) => Err(x),
            Ok(x1) => fun1_rest(a, f, x1, m),
        },
        ExpV::Builtin2(f, e1, e2) => match spec_pe_exp(a, *e1, m) {
            Err(x) => Err(x),
            Ok(x1) => match spec_pe_exp(a, *e2, m) {
                Err(x) => Err(x),
                Ok(x2) => fun2_rest(a, f, x1, x2, m),
            },
        },
    }
}

/// A location with its index partially evaluated.
pub open spec fn spec_pe_lval<A: Fn(FloatOp) -> u64>(a: &A, l: LvalV, m: EnvV) -> Result<
    LvalV,
    EvalError,
>
    decreases l,
{
    match l {
        LvalV::Var(n) => Ok(LvalV::Var(n)),
        LvalV::Array(n, idx) => match spec_pe_exp(a, *idx, m) {
            Err(x) => Err(x),
            Ok(i2) => Ok(LvalV::Array(n, Box::new(i2))),
        },
    }
}

/// Partial evaluation of expressions, left to right, up to the first error.
pub open spec fn spec_pe_exps<A: Fn(FloatOp) -> u64>(a: &A, es: Seq<ExpV>, m: EnvV) -> Result<
    Seq<ExpV>,
    EvalError,
>
    decreases es.len(),
{
    if es.len() == 0 {
        Ok(Seq::empty())
    } else {
        match spec_pe_exps(a, es.drop_last(), m) {
            Err(x) => Err(x),
            Ok(xs) => match spec_pe_exp(a, es.last(), m) {
                Err(x) => Err(x),
                Ok(y) => Ok(xs.push(y)),
            },
        }
    }
}

pub open spec fn spec_pe_lvals<A: Fn(FloatOp) -> u64>(a: &A, ls: Seq<LvalV>, m: EnvV) -> Result<
    Seq<LvalV>,
    EvalError,
>
    decreases ls.len(),
{
    if ls.len() == 0 {
        Ok(Seq::empty())
    } else {
        match spec_pe_lvals(a, ls.drop_last(), m) {
            Err(x) => Err(x),
            Ok(xs) => match spec_pe_lval(a, ls.last(), m) {
                Err(x) => Err(x),
                Ok(y) => Ok(xs.push(y)),
            },
        }
    }
}

/// The values of constant nodes, left to right, up to the first error.
pub open spec fn spec_known_all<A: Fn(FloatOp) -> u64>(a: &A, es: Seq<ExpV>, m: EnvV) -> Result<
    Seq<Scalar>,
    EvalError,
>
    decreases es.len(),
{
    if es.len() == 0 {
        Ok(Seq::empty())
    } else {
        match spec_known_all(a, es.drop_last(), m) {
            Err(x) => Err(x),
            Ok(xs) => match known(spec_interp_exp(a, es.last(), m)) {
                Err(x) => Err(x),
                Ok(y) => Ok(xs.push(y)),
            },
        }
    }
}

pub open spec fn spec_pe_gate<A: Fn(FloatOp) -> u64>(a: &A, g: GateV, m: EnvV) -> Result<
    GateV,
    EvalError,
> {
    match g {
        GateV::Not => Ok(GateV::Not),
        GateV::H => Ok(GateV::H),
        GateV::Rx(e) => match spec_pe_exp(a, e, m) {
            Ok(x) => Ok(GateV::Rx(x)),
            Err(x) => Err(x),
        },
        GateV::Ry(e) => match spec_pe_exp(a, e, m) {
            Ok(x) => Ok(GateV::Ry(x)),
            Err(x) => Err(x),
        },
        GateV::Rz(e) => match spec_pe_exp(a, e, m) {
            Ok(x) => Ok(GateV::Rz(x)),
            Err(x) => Err(x),
        },
        GateV::P(e) => match spec_pe_exp(a, e, m) {
            Ok(x) => Ok(GateV::P(x)),
            Err(x) => Err(x),
        },
    }
}

pub open spec fn spec_pe_qupdate<A: Fn(FloatOp) -> u64>(a: &A, q: QUpdateV, m: EnvV) -> Result<
    QUpdateV,
    EvalError,
> {
    match q {
        QUpdateV::Gate(g, l) => match spec_pe_gate(a, g, m) {
            Err(x) => Err(x),
            Ok(g2) => match spec_pe_lval(a, l, m) {
                Err(x) => Err(x),
                Ok(l2) => Ok(QUpdateV::Gate(g2, l2)),
            },
        },
        QUpdateV::Swap(x, y) => match spec_pe_lval(a, x, m) {
            Err(e) => Err(e),
            Ok(x2) => match spec_pe_lval(a, y, m) {
                Err(e) => Err(e),
                Ok(y2) => Ok(QUpdateV::Swap(x2, y2)),
            },
        },
    }
}

/// The value a new scalar variable of a type starts with (none for a qbit).
pub open spec fn default_scalar(ty: Type) -> Option<ValueV> {
    match ty {
        Type::Cbit => Some(ValueV::Scalar(Scalar::Cbit(false))),
        Type::Int => Some(ValueV::Scalar(Scalar::Int(0))),
        Type::Float => Some(ValueV::Scalar(Scalar::Float(0))),
        Type::Qbit => None,
    }
}

/// The value a new array of a type and length starts with (none for qbits).
pub open spec fn default_array(ty: Type, n: nat) -> Option<ValueV> {
    match ty {
        Type::Cbit => Some(ValueV::Array(ArrayV::Cbit(Seq::new(n, |i: int| false)))),
        Type::Int => Some(ValueV::Array(ArrayV::Int(Seq::new(n, |i: int| 0i64)))),
        Type::Float => Some(ValueV::Array(ArrayV::Float(Seq::new(n, |i: int| 0u64)))),
        Type::Qbit => None,
    }
}

/// The environment after a declaration without initial value.
pub open spec fn uninit_effect<A: Fn(FloatOp) -> u64>(a: &A, ty: Type, l: LvalV, m: EnvV) -> Result<
    EnvV,
    EvalError,
> {
    match l {
        LvalV::Var(name) => Ok(declare(m, name, default_scalar(ty))),
        LvalV::Array(name, e) => match spec_interp_exp(a, *e, m) {
            Err(x) => Err(x),
            Ok(Some(n)) => Ok(declare(m, name, default_array(ty, spec_scalar_to_usize(a, n) as nat))),
            Ok(None) => Ok(declare(m, name, default_array(ty, 0))),
        },
    }
}

pub open spec fn all_const(es: Seq<ExpV>) -> bool {
    forall|i: int| 0 <= i < es.len() ==> spec_is_const_node(#[trigger] es[i])
}

/// The partial evaluation of a declaration and the environment after it.
///
/// A name declared without a known value is entered without a value. A
/// lookup passes over an entry without a value to the value of the name in
/// an enclosing scope (see [`lookup`]), so such an entry leaves an outer
/// value of the same name visible.
#[verifier::opaque]
pub open spec fn spec_pe_decl<A: Fn(FloatOp) -> u64>(a: &A, d: DeclarationV, m: EnvV) -> Result<
    (DeclarationV, EnvV),
    EvalError,
> {
    match d {
        DeclarationV::Uninit { ty, lval } => match spec_pe_lval(a, lval, m) {
            Err(x) => Err(x),
            Ok(l2) => match uninit_effect(a, ty, l2, m) {
                Err(x) => Err(x),
                Ok(m2) => Ok((DeclarationV::Uninit { ty, lval: l2 }, m2)),
            },
        },
        DeclarationV::InitScalar { ty, name, value } => match spec_pe_exp(a, value, m) {
            Err(x) => Err(x),
            Ok(v2) => {
                let d2 = DeclarationV::InitScalar { ty, name, value: v2 };
                if spec_is_const_node(v2) {
                    match known(spec_interp_exp(a, v2, m)) {
                        Err(x) => Err(x),
                        Ok(val) => match spec_scalar_to_scalar(a, val, ty) {
                            Err(x) => Err(x),
                            Ok(sv) => Ok((d2, declare(m, name, Some(ValueV::Scalar(sv))))),
                        },
                    }
                } else {
                    Ok((d2, declare(m, name, None)))
                }
            },
        },
        DeclarationV::InitArray { ty, name, size, values } => match spec_pe_exp(a, size, m) {
            Err(x) => Err(x),
            Ok(s2) => match spec_pe_exps(a, values, m) {
                Err(x) => Err(x),
                Ok(es) => {
                    let d2 = DeclarationV::InitArray { ty, name, size: s2, values: es };
                    if all_const(es) {
                        match spec_known_all(a, es, m) {
                            Err(x) => Err(x),
                            Ok(vals) => match spec_scalars_to_array(a, vals, ty) {
                                Err(x) => Err(x),
                                Ok(arr) => Ok((d2, declare(m, name, Some(ValueV::Array(arr))))),
                            },
                        }
                    } else {
                        Ok((d2, declare(m, name, None)))
                    }
                },
            },
        },
    }
}

pub open spec fn spec_pe_decls<A: Fn(FloatOp) -> u64>(a: &A, ds: Seq<DeclarationV>, m: EnvV) -> Result<
    (Seq<DeclarationV>, EnvV),
    EvalError,
>
    decreases ds.len(),
{
    if ds.len() == 0 {
        Ok((Seq::empty(), m))
    } else {
        match spec_pe_decls(a, ds.drop_last(), m) {
            Err(x) => Err(x),
            Ok((xs, m1)) => match spec_pe_decl(a, ds.last(), m1) {
                Err(x) => Err(x),
                Ok((y, m2)) => Ok((xs.push(y), m2)),
            },
        }
    }
}

/// The environment after storing `val` at index `i` of the array `name`:
/// the store goes to the scope in which a lookup finds the array, converted
/// to the array's element type; nothing changes when `name` holds no array.
pub open spec fn store_elem<A: Fn(FloatOp) -> u64>(
    a: &A,
    m: EnvV,
    name: Seq<char>,
    i: int,
    val: Scalar,
) -> Result<EnvV, EvalError> {
    match lookup(m, name) {
        Some(ValueV::Array(arr)) => {
            let k = find_value(m, name, m.len() as int)->0;
            let set = |x: ArrayV| m.update(k, m[k].insert(name, Some(ValueV::Array(x))));
            match arr {
                ArrayV::Int(v) => if 0 <= i < v.len() {
                    Ok(set(ArrayV::Int(v.update(i, spec_scalar_to_i64(a, val)))))
                } else {
                    Err(EvalError::IndexOutOfBounds)
                },
                ArrayV::Float(v) => if 0 <= i < v.len() {
                    Ok(set(ArrayV::Float(v.update(i, spec_scalar_to_f64(a, val)))))
                } else {
                    Err(EvalError::IndexOutOfBounds)
                },
                ArrayV::Cbit(v) => if 0 <= i < v.len() {
                    Ok(set(ArrayV::Cbit(v.update(i, spec_scalar_to_bool(val)))))
                } else {
                    Err(EvalError::IndexOutOfBounds)
                },
            }
        },
        _ => Ok(m),
    }
}

/// The environment after an assignment of the (partially evaluated) `e` to
/// `l`: a constant is stored, anything else takes the value from the
/// target's entry (and a lookup then passes over that entry, as for a
/// declaration without a value).
pub open spec fn assign_effect<A: Fn(FloatOp) -> u64>(a: &A, l: LvalV, e: ExpV, m: EnvV) -> Result<
    EnvV,
    EvalError,
> {
    if spec_is_const_node(e) {
        match known(spec_interp_exp(a, e, m)) {
            Err(x) => Err(x),
            Ok(val) => match l {
                LvalV::Var(name) => Ok(assign(m, name, Some(ValueV::Scalar(val)))),
                LvalV::Array(name, idx) => match spec_interp_exp(a, *idx, m) {
                    Err(x) => Err(x),
                    Ok(Some(iv)) => store_elem(a, m, name, spec_scalar_to_usize(a, iv) as int, val),
                    Ok(None) => Ok(m),
                },
            },
        }
    } else {
        Ok(assign(m, lval_name_of(l), None))
    }
}

/// The partial evaluation of an assignment and the environment after it.
pub open spec fn spec_pe_assign<A: Fn(FloatOp) -> u64>(a: &A, l: LvalV, e: ExpV, m: EnvV) -> Result<
    (StatementV, EnvV),
    EvalError,
> {
    match spec_pe_lval(a, l, m) {
        Err(x) => Err(x),
        Ok(l2) => match spec_pe_exp(a, e, m) {
            Err(x) => Err(x),
            Ok(e2) => match assign_effect(a, l2, e2, m) {
                Err(x) => Err(x),
                Ok(m2) => Ok((StatementV::Assignment(l2, e2), m2)),
            },
        },
    }
}

/// The declarations and statements that bind a call's arguments to the
/// first `n` parameters: a parameter named like its argument needs none.
pub open spec fn call_bindings(params: Seq<ParamV>, args: Seq<LvalV>, n: int) -> (
    Seq<DeclarationV>,
    Seq<StatementV>,
)
    decreases n,
{
    if n <= 0 {
        (Seq::empty(), Seq::empty())
    } else {
        let (ds, ss) = call_bindings(params, args, n - 1);
        let p = params[n - 1];
        let arg = args[n - 1];
        if param_name_of(p) == lval_name_of(arg) {
            (ds, ss)
        } else {
            match p {
                ParamV::Scalar { ty, name } => (
                    ds.push(DeclarationV::InitScalar { ty, name, value: ExpV::Lval(arg) }),
                    ss,
                ),
                ParamV::ArrayConst { ty, name, size } => (
                    ds.push(
                        DeclarationV::Uninit {
                            ty,
                            lval: LvalV::Array(name, Box::new(ExpV::Int(size))),
                        },
                    ),
                    ss.push(StatementV::Assignment(LvalV::Var(name), ExpV::Lval(arg))),
                ),
                ParamV::ArrayVar { ty, name, size } => (
                    ds.push(
                        DeclarationV::Uninit {
                            ty,
                            lval: LvalV::Array(name, Box::new(ExpV::Lval(LvalV::Var(size)))),
                        },
                    ),
                    ss.push(StatementV::Assignment(LvalV::Var(name), ExpV::Lval(arg))),
                ),
            }
        }
    }
}

pub open spec fn min_len(a: nat, b: nat) -> int {
    if a < b {
        a as int
    } else {
        b as int
    }
}

/// The names the declarations introduce.
pub open spec fn decl_names(ds: Seq<DeclarationV>) -> Set<Seq<char>> {
    Set::new(|k: Seq<char>| exists|i: int| 0 <= i < ds.len() && decl_name_of(ds[i]) == k)
}

/// Whether one of the declarations declares a name of the set.
pub open spec fn redeclares(inner: Seq<DeclarationV>, names: Set<Seq<char>>) -> bool {
    exists|j: int| 0 <= j < inner.len() && names.contains(decl_name_of(#[trigger] inner[j]))
}

/// Whether a nested block must stay a block: it redeclares a name of `outer`
/// (or, in reduction, of the declarations gathered so far).
pub open spec fn collides(cfg: PeCfg, inner: Seq<DeclarationV>, sofar: Seq<DeclarationV>, outer: Set<Seq<char>>) -> bool {
    redeclares(
        inner,
        if cfg.reduce {
            decl_names(sofar)
        } else {
            outer
        },
    )
}

/// How one partially evaluated statement joins the enclosing block.
pub open spec fn absorb(
    cfg: PeCfg,
    ds: Seq<DeclarationV>,
    ss: Seq<StatementV>,
    r: StatementV,
    outer: Set<Seq<char>>,
) -> (Seq<DeclarationV>, Seq<StatementV>) {
    match r {
        StatementV::Block(id, is) => if collides(cfg, id, ds, outer) {
            (ds, ss.push(r))
        } else {
            (ds + id, ss + is)
        },
        StatementV::Assignment(_, e) => if !cfg.reduce && cfg.procs is Some && spec_is_const_node(e) {
            (ds, ss)
        } else {
            (ds, ss.push(r))
        },
        _ => (ds, ss.push(r)),
    }
}

/// The declarations whose names are used.
pub open spec fn keep_used_decls(ds: Seq<DeclarationV>, used: Set<Seq<char>>) -> Seq<DeclarationV>
    decreases ds.len(),
{
    if ds.len() == 0 {
        ds
    } else {
        let rest = keep_used_decls(ds.drop_last(), used);
        if used.contains(decl_name_of(ds.last())) {
            rest.push(ds.last())
        } else {
            rest
        }
    }
}

/// The statements but the assignments to names that are not used.
pub open spec fn keep_used_assignments(ss: Seq<StatementV>, used: Set<Seq<char>>) -> Seq<StatementV>
    decreases ss.len(),
{
    if ss.len() == 0 {
        ss
    } else {
        let rest = keep_used_assignments(ss.drop_last(), used);
        match ss.last() {
            StatementV::Assignment(l, _) => if used.contains(lval_name_of(l)) {
                rest.push(ss.last())
            } else {
                rest
            },
            _ => rest.push(ss.last()),
        }
    }
}

pub open spec fn pop_scope_of(m: EnvV) -> EnvV {
    if m.len() == 0 {
        m
    } else {
        m.drop_last()
    }
}

/// Partial evaluation of one statement, and the environment after it.
/// `fuel` bounds how deeply calls are inlined into one another.
#[verifier::opaque]
pub open spec fn spec_pe_stmt<A: Fn(FloatOp) -> u64>(
    a: &A,
    cfg: PeCfg,
    fuel: nat,
    s: StatementV,
    m: EnvV,
) -> Result<(StatementV, EnvV), EvalError>
    decreases fuel, s, 0nat,
{
    match s {
        StatementV::ProcedureCall(name, args) => match spec_pe_lvals(a, args, m) {
            Err(x) => Err(x),
            Ok(args2) => match cfg.procs {
                None => Ok((StatementV::ProcedureCall(name, args2), m)),
                Some(pm) => match lookup(pm, name) {
                    None => if cfg.reduce {
                        Ok((StatementV::ProcedureCall(name, args2), m))
                    } else {
                        Err(EvalError::UndefinedProcedure)
                    },
                    Some(p) => if fuel == 0 {
                        Err(EvalError::InliningTooDeep)
                    } else {
                        let (ds, ss) = call_bindings(
                            p.params,
                            args2,
                            min_len(p.params.len(), args2.len()),
                        );
                        if ds.len() == 0 {
                            spec_pe_stmt(a, cfg, (fuel - 1) as nat, p.body, m)
                        } else {
                            spec_pe_stmt(
                                a,
                                cfg,
                                (fuel - 1) as nat,
                                StatementV::Block(ds, ss.push(p.body)),
                                m,
                            )
                        }
                    },
                },
            },
        },
        StatementV::Assignment(l, e) => spec_pe_assign(a, l, e, m),
        StatementV::QUpdate(q) => match spec_pe_qupdate(a, q, m) {
            Err(x) => Err(x),
            Ok(q2) => Ok((StatementV::QUpdate(q2), m)),
        },
        StatementV::ConditionalQUpdate(q, c) => match spec_pe_qupdate(a, q, m) {
            Err(x) => Err(x),
            Ok(q2) => match spec_pe_lval(a, c, m) {
                Err(x) => Err(x),
                Ok(c2) => Ok((StatementV::ConditionalQUpdate(q2, c2), m)),
            },
        },
        StatementV::Measure(q, c) => match spec_pe_lval(a, q, m) {
            Err(x) => Err(x),
            Ok(q2) => match spec_pe_lval(a, c, m) {
                Err(x) => Err(x),
                Ok(c2) => Ok((StatementV::Measure(q2, c2), m)),
            },
        },
        StatementV::Block(ds, ss) => {
            let pushed = ds.len() > 0;
            let m1 = if pushed {
                m.push(Map::empty())
            } else {
                m
            };
            match spec_pe_decls(a, ds, m1) {
                Err(x) => Err(x),
                Ok((fd, m2)) => match spec_pe_stmts(a, cfg, fuel, ss, m2, decl_names(fd), fd) {
                    Err(x) => Err(x),
                    Ok((d, st, m3)) => {
                        let m4 = if pushed {
                            pop_scope_of(m3)
                        } else {
                            m3
                        };
                        let used = stmts_vars(st);
                        let d2 = if cfg.reduce || cfg.procs is Some {
                            keep_used_decls(d, used)
                        } else {
                            d
                        };
                        let st2 = if cfg.reduce {
                            keep_used_assignments(st, used)
                        } else {
                            st
                        };
                        if d2.len() == 0 && st2.len() == 1 {
                            Ok((st2[0], m4))
                        } else {
                            Ok((StatementV::Block(d2, st2), m4))
                        }
                    },
                },
            }
        },
        StatementV::If(e, t, f) => match spec_pe_exp(a, e, m) {
            Err(x) => Err(x),
            Ok(c) => if spec_is_const_node(c) {
                match known(spec_interp_exp(a, c, m)) {
                    Err(x) => Err(x),
                    Ok(Scalar::Cbit(true)) => spec_pe_stmt(a, cfg, fuel, *t, m),
                    Ok(Scalar::Cbit(false)) => spec_pe_stmt(a, cfg, fuel, *f, m),
                    Ok(_) => Err(EvalError::NonBooleanCondition),
                }
            } else {
                match spec_pe_stmt(a, cfg, fuel, *t, m) {
                    Err(x) => Err(x),
                    Ok((t2, m1)) => match spec_pe_stmt(a, cfg, fuel, *f, m1) {
                        Err(x) => Err(x),
                        Ok((f2, m2)) => Ok((StatementV::If(c, Box::new(t2), Box::new(f2)), m2)),
                    },
                }
            },
        },
        StatementV::While(e, body) => match spec_unroll(a, cfg, fuel, e, *body, cfg.limit, m, Seq::empty()) {
            Err(x) => Err(x),
            Ok(Some((iters, m2))) => Ok((StatementV::Block(Seq::empty(), iters), m2)),
            Ok(None) => Ok((StatementV::While(e, body), m)),
        },
    }
}

/// Unrolling a loop at most `n` more times from the environment `im`: the
/// condition (as written) is evaluated in `im`; while it is `true` the body
/// is partially evaluated; when it is `false` the unrolled bodies and the
/// environment are the result; anything else, or running out of
/// unrollings, gives up (`None`).
pub open spec fn spec_unroll<A: Fn(FloatOp) -> u64>(
    a: &A,
    cfg: PeCfg,
    fuel: nat,
    e: ExpV,
    body: StatementV,
    n: nat,
    im: EnvV,
    iters: Seq<StatementV>,
) -> Result<Option<(Seq<StatementV>, EnvV)>, EvalError>
    decreases fuel, body, n,
{
    if n == 0 {
        Ok(None)
    } else {
        match spec_interp_exp(a, e, im) {
            Err(x) => Err(x),
            Ok(Some(Scalar::Cbit(true))) => match spec_pe_stmt(a, cfg, fuel, body, im) {
                Err(x) => Err(x),
                Ok((b2, im2)) => spec_unroll(a, cfg, fuel, e, body, (n - 1) as nat, im2, iters.push(b2)),
            },
            Ok(Some(Scalar::Cbit(false))) => Ok(Some((iters, im))),
            _ => Ok(None),
        }
    }
}

/// The statements of a block, partially evaluated in order and joined as
/// [`absorb`] says, starting from the declarations `fd`.
pub open spec fn spec_pe_stmts<A: Fn(FloatOp) -> u64>(
    a: &A,
    cfg: PeCfg,
    fuel: nat,
    ss: Seq<StatementV>,
    m: EnvV,
    outer: Set<Seq<char>>,
    fd: Seq<DeclarationV>,
) -> Result<(Seq<DeclarationV>, Seq<StatementV>, EnvV), EvalError>
    decreases fuel, ss, 0nat,
{
    if ss.len() == 0 {
        Ok((fd, Seq::empty(), m))
    } else {
        match spec_pe_stmts(a, cfg, fuel, ss.drop_last(), m, outer, fd) {
            Err(x) => Err(x),
            Ok((d, st, m1)) => match spec_pe_stmt(a, cfg, fuel, ss.last(), m1) {
                Err(x) => Err(x),
                Ok((r, m2)) => {
                    let (d2, st2) = absorb(cfg, d, st, r, outer);
                    Ok((d2, st2, m2))
                },
            },
        }
    }
}

} // verus!

verus! {

// ---------------------------------------------------------------------------
// Implementation
// ---------------------------------------------------------------------------

/// A result with its success value seen through its view.
pub open spec fn rv<T: View>(r: Result<T, EvalError>) -> Result<T::V, EvalError> {
    match r {
        Ok(x) => Ok(x@),
        Err(e) => Err(e),
    }
}

/// The model of an optional procedure table.
pub open spec fn procs_model(procs: Option<&ProcMap>) -> Option<ProcsV> {
    match procs {
        Some(p) => Some(p@),
        None => None,
    }
}

pub open spec fn procs_wf(procs: Option<&ProcMap>) -> bool {
    match procs {
        Some(p) => p.wf(),
        None => true,
    }
}

pub open spec fn cfg_of(procs: Option<&ProcMap>, reduce: bool, limit: usize) -> PeCfg {
    PeCfg { procs: procs_model(procs), reduce, limit: limit as nat }
}

fn const_of<A: Fn(FloatOp) -> u64>(e: &Exp, env: &ValueEnv, a: &A) -> (r: Result<
    Scalar,
    EvalError,
>)
    requires
        env.wf(),
        arith_ok(a),
    ensures
        r == known(spec_interp_exp(a, e@, env@)),
{
    match try_interpret_exp(e, env, a) {
        Ok(Some(v)) => Ok(v),
        Ok(None) => Err(EvalError::MissingValue),
        Err(x) => Err(x),
    }
}

fn fold(r: Result<Scalar, EvalError>) -> (out: Result<Exp, EvalError>)
    ensures
        rv(out) == folded(r),
{
    match r {
        Ok(v) => Ok(make_const_node(v)),
        Err(x) => Err(x),
    }
}

pub open spec fn unary_rest<A: Fn(FloatOp) -> u64>(a: &A, op: Seq<char>, x1: ExpV, m: EnvV) -> Result<
    ExpV,
    EvalError,
> {
    if spec_is_const_node(x1) {
        match known(spec_interp_exp(a, x1, m)) {
            Err(x) => Err(x),
            Ok(v) => folded(spec_eval_unop(op, v)),
        }
    } else {
        Ok(ExpV::Unary(op, Box::new(x1)))
    }
}

pub open spec fn fun1_rest<A: Fn(FloatOp) -> u64>(a: &A, f: Seq<char>, x1: ExpV, m: EnvV) -> Result<
    ExpV,
    EvalError,
> {
    if spec_is_const_node(x1) {
        match known(spec_interp_exp(a, x1, m)) {
            Err(x) => Err(x),
            Ok(v) => folded(spec_eval_fun_1(a, f, v)),
        }
    } else {
        Ok(ExpV::Builtin1(f, Box::new(x1)))
    }
}

pub open spec fn binary_rest<A: Fn(FloatOp) -> u64>(
    a: &A,
    op: Seq<char>,
    x1: ExpV,
    x2: ExpV,
    m: EnvV,
) -> Result<ExpV, EvalError> {
    if spec_is_const_node(x1) && spec_is_const_node(x2) {
        match known(spec_interp_exp(a, x1, m)) {
            Err(x) => Err(x),
            Ok(v1) => match known(spec_interp_exp(a, x2, m)) {
                Err(x) => Err(x),
                Ok(v2) => folded(spec_eval_binop(a, op, v1, v2)),
            },
        }
    } else {
        Ok(ExpV::Binary(Box::new(x1), op, Box::new(x2)))
    }
}

pub open spec fn fun2_rest<A: Fn(FloatOp) -> u64>(
    a: &A,
    f: Seq<char>,
    x1: ExpV,
    x2: ExpV,
    m: EnvV,
) -> Result<ExpV, EvalError> {
    if spec_is_const_node(x1) && spec_is_const_node(x2) {
        match known(spec_interp_exp(a, x1, m)) {
            Err(x) => Err(x),
            Ok(v1) => match known(spec_interp_exp(a, x2, m)) {
                Err(x) => Err(x),
                Ok(v2) => folded(spec_eval_fun_2(a, f, v1, v2)),
            },
        }
    } else {
        Ok(ExpV::Builtin2(f, Box::new(x1), Box::new(x2)))
    }
}

fn unary_fold<A: Fn(FloatOp) -> u64>(op: String, x1: Exp, env: &ValueEnv, a: &A) -> (r: Result<
    Exp,
    EvalError,
>)
    requires
        env.wf(),
        arith_ok(a),
    ensures
        rv(r) == unary_rest(a, op@, x1@, env@),
{
    if is_const_node(&x1) {
        match const_of(&x1, env, a) {
            Err(x) => Err(x),
            Ok(v) => fold(try_eval_unop(op.as_str(), v)),
        }
    } else {
        Ok(Exp::Unary(op, Box::new(x1)))
    }
}

fn fun1_fold<A: Fn(FloatOp) -> u64>(f: String, x1: Exp, env: &ValueEnv, a: &A) -> (r: Result<
    Exp,
    EvalError,
>)
    requires
        env.wf(),
        arith_ok(a),
    ensures
        rv(r) == fun1_rest(a, f@, x1@, env@),
{
    if is_const_node(&x1) {
        match const_of(&x1, env, a) {
            Err(x) => Err(x),
            Ok(v) => fold(try_eval_fun_1(f.as_str(), v, a)),
        }
    } else {
        Ok(Exp::Builtin1(f, Box::new(x1)))
    }
}

fn binary_fold<A: Fn(FloatOp) -> u64>(op: String, x1: Exp, x2: Exp, env: &ValueEnv, a: &A) -> (r: Result<
    Exp,
    EvalError,
>)
    requires
        env.wf(),
        arith_ok(a),
    ensures
        rv(r) == binary_rest(a, op@, x1@, x2@, env@),
{
    if is_const_node(&x1) && is_const_node(&x2) {
        let v1 = match const_of(&x1, env, a) {
            Ok(v) => v,
            Err(x) => return Err(x),
        };
        let v2 = match const_of(&x2, env, a) {
            Ok(v) => v,
            Err(x) => return Err(x),
        };
        fold(try_eval_binop(op.as_str(), v1, v2, a))
    } else {
        Ok(Exp::Binary(Box::new(x1), op, Box::new(x2)))
    }
}

fn fun2_fold<A: Fn(FloatOp) -> u64>(f: String, x1: Exp, x2: Exp, env: &ValueEnv, a: &A) -> (r: Result<
    Exp,
    EvalError,
>)
    requires
        env.wf(),
        arith_ok(a),
    ensures
        rv(r) == fun2_rest(a, f@, x1@, x2@, env@),
{
    if is_const_node(&x1) && is_const_node(&x2) {
        let v1 = match const_of(&x1, env, a) {
            Ok(v) => v,
            Err(x) => return Err(x),
        };
        let v2 = match const_of(&x2, env, a) {
            Ok(v) => v,
            Err(x) => return Err(x),
        };
        fold(try_eval_fun_2(f.as_str(), v1, v2, a))
    } else {
        Ok(Exp::Builtin2(f, Box::new(x1), Box::new(x2)))
    }
}

/// Partially evaluates an expression; see [`spec_pe_exp`].
pub fn try_part_eval_exp<A: Fn(FloatOp) -> u64>(exp: Exp, env: &ValueEnv, a: &A) -> (r: Result<
    Exp,
    EvalError,
>)
    requires
        env.wf(),
        arith_ok(a),
    ensures
        rv(r) == spec_pe_exp(a, exp@, env@),
    decreases exp,
{
    match exp {
        Exp::Int(i) => Ok(Exp::Int(i)),
        Exp::Float(f) => Ok(Exp::Float(f)),
        Exp::NamedConst(s) => Ok(Exp::NamedConst(s)),
        Exp::Lval(l) => {
            let l2 = match try_part_eval_lval(l, env, a) {
                Ok(x) => x,
                Err(x) => return Err(x),
            };
            match try_interpret_lval(&l2, env, a) {
                Err(x) => Err(x),
                Ok(Some(v)) => Ok(make_const_node(v)),
                Ok(None) => Ok(Exp::Lval(l2)),
            }
        },
        Exp::Unary(op, e1) => {
            let x1 = match try_part_eval_exp(*e1, env, a) {
                Ok(x) => x,
                Err(x) => return Err(x),
            };
            unary_fold(op, x1, env, a)
        },
        Exp::Binary(e1, op, e2) => {
            let x1 = match try_part_eval_exp(*e1, env, a) {
                Ok(x) => x,
                Err(x) => return Err(x),
            };
            let x2 = match try_part_eval_exp(*e2, env, a) {
                Ok(x) => x,
                Err(x) => return Err(x),
            };
            binary_fold(op, x1, x2, env, a)
        },
        Exp::Builtin1(f, e1) => {
            let x1 = match try_part_eval_exp(*e1, env, a) {
                Ok(x) => x,
                Err(x) => return Err(x),
            };
            fun1_fold(f, x1, env, a)
        },
        Exp::Builtin2(f, e1, e2) => {
            let x1 = match try_part_eval_exp(*e1, env, a) {
                Ok(x) => x,
                Err(x) => return Err(x),
            };
            let x2 = match try_part_eval_exp(*e2, env, a) {
                Ok(x) => x,
                Err(x) => return Err(x),
            };
            fun2_fold(f, x1, x2, env, a)
        },
    }
}

/// Partially evaluates the index of a location; see [`spec_pe_lval`].
pub fn try_part_eval_lval<A: Fn(FloatOp) -> u64>(l: Lval, env: &ValueEnv, a: &A) -> (r: Result<
    Lval,
    EvalError,
>)
    requires
        env.wf(),
        arith_ok(a),
    ensures
        rv(r) == spec_pe_lval(a, l@, env@),
    decreases l,
{
    match l {
        Lval::Var(name) => Ok(Lval::Var(name)),
        Lval::Array(name, idx) => match try_part_eval_exp(*idx, env, a) {
            Ok(i2) => Ok(Lval::Array(name, Box::new(i2))),
            Err(x) => Err(x),
        },
    }
}

/// Partially evaluates the angle of a gate; see [`spec_pe_gate`].
pub fn try_part_eval_gate<A: Fn(FloatOp) -> u64>(g: Gate, env: &ValueEnv, a: &A) -> (r: Result<
    Gate,
    EvalError,
>)
    requires
        env.wf(),
        arith_ok(a),
    ensures
        rv(r) == spec_pe_gate(a, g@, env@),
{
    match g {
        Gate::Not => Ok(Gate::Not),
        Gate::H => Ok(Gate::H),
        Gate::Rx(e) => match try_part_eval_exp(e, env, a) {
            Ok(x) => Ok(Gate::Rx(x)),
            Err(x) => Err(x),
        },
        Gate::Ry(e) => match try_part_eval_exp(e, env, a) {
            Ok(x) => Ok(Gate::Ry(x)),
            Err(x) => Err(x),
        },
        Gate::Rz(e) => match try_part_eval_exp(e, env, a) {
            Ok(x) => Ok(Gate::Rz(x)),
            Err(x) => Err(x),
        },
        Gate::P(e) => match try_part_eval_exp(e, env, a) {
            Ok(x) => Ok(Gate::P(x)),
            Err(x) => Err(x),
        },
    }
}

/// Partially evaluates a quantum update; see [`spec_pe_qupdate`].
pub fn try_part_eval_qupdate<A: Fn(FloatOp) -> u64>(q: QUpdate, env: &ValueEnv, a: &A) -> (r: Result<
    QUpdate,
    EvalError,
>)
    requires
        env.wf(),
        arith_ok(a),
    ensures
        rv(r) == spec_pe_qupdate(a, q@, env@),
{
    match q {
        QUpdate::Gate(g, l) => {
            let g2 = match try_part_eval_gate(g, env, a) {
                Ok(x) => x,
                Err(x) => return Err(x),
            };
            match try_part_eval_lval(l, env, a) {
                Ok(l2) => Ok(QUpdate::Gate(g2, l2)),
                Err(x) => Err(x),
            }
        },
        QUpdate::Swap(x, y) => {
            let x2 = match try_part_eval_lval(x, env, a) {
                Ok(v) => v,
                Err(e) => return Err(e),
            };
            match try_part_eval_lval(y, env, a) {
                Ok(y2) => Ok(QUpdate::Swap(x2, y2)),
                Err(e) => Err(e),
            }
        },
    }
}

fn part_eval_exps<A: Fn(FloatOp) -> u64>(es: &Vec<Exp>, env: &ValueEnv, a: &A) -> (r: Result<
    Vec<Exp>,
    EvalError,
>)
    requires
        env.wf(),
        arith_ok(a),
    ensures
        match r {
            Ok(xs) => spec_pe_exps(a, exps_view(es@), env@) == Ok::<Seq<ExpV>, EvalError>(
                exps_view(xs@),
            ),
            Err(x) => spec_pe_exps(a, exps_view(es@), env@) == Err::<Seq<ExpV>, EvalError>(x),
        },
{
    let ghost all = exps_view(es@);
    let mut out: Vec<Exp> = Vec::new();
    assert(all.take(0) =~= Seq::<ExpV>::empty());
    assert(exps_view(out@) =~= Seq::<ExpV>::empty());
    for k in 0..es.len()
        invariant
            env.wf(),
            arith_ok(a),
            all == exps_view(es@),
            spec_pe_exps(a, all.take(k as int), env@) == Ok::<Seq<ExpV>, EvalError>(
                exps_view(out@),
            ),
    {
        let ghost o0 = out@;
        assert(all.take(k + 1).drop_last() =~= all.take(k as int));
        assert(all.take(k + 1).last() == es@[k as int]@);
        match try_part_eval_exp(copy_exp(&es[k]), env, a) {
            Ok(x) => {
                out.push(x);
                assert(exps_view(out@) =~= exps_view(o0).push(x@));
            },
            Err(x) => {
                proof {
                    lemma_pe_exps_prefix_err(a, all, env@, k as int + 1, x);
                }
                return Err(x);
            },
        }
    }
    assert(all.take(es.len() as int) =~= all);
    Ok(out)
}

/// An error in a prefix is the error of the whole.
proof fn lemma_pe_exps_prefix_err<A: Fn(FloatOp) -> u64>(
    a: &A,
    es: Seq<ExpV>,
    m: EnvV,
    n: int,
    x: EvalError,
)
    requires
        0 <= n <= es.len(),
        spec_pe_exps(a, es.take(n), m) == Err::<Seq<ExpV>, EvalError>(x),
    ensures
        spec_pe_exps(a, es, m) == Err::<Seq<ExpV>, EvalError>(x),
    decreases es.len() - n,
{
    if n < es.len() {
        assert(es.take(n + 1).drop_last() =~= es.take(n));
        lemma_pe_exps_prefix_err(a, es, m, n + 1, x);
    } else {
        assert(es.take(n) =~= es);
    }
}

/// An error in a prefix is the error of the whole.
proof fn lemma_pe_lvals_prefix_err<A: Fn(FloatOp) -> u64>(
    a: &A,
    ls: Seq<LvalV>,
    m: EnvV,
    n: int,
    x: EvalError,
)
    requires
        0 <= n <= ls.len(),
        spec_pe_lvals(a, ls.take(n), m) == Err::<Seq<LvalV>, EvalError>(x),
    ensures
        spec_pe_lvals(a, ls, m) == Err::<Seq<LvalV>, EvalError>(x),
    decreases ls.len() - n,
{
    if n < ls.len() {
        assert(ls.take(n + 1).drop_last() =~= ls.take(n));
        lemma_pe_lvals_prefix_err(a, ls, m, n + 1, x);
    } else {
        assert(ls.take(n) =~= ls);
    }
}

fn part_eval_lvals<A: Fn(FloatOp) -> u64>(ls: &Vec<Lval>, env: &ValueEnv, a: &A) -> (r: Result<
    Vec<Lval>,
    EvalError,
>)
    requires
        env.wf(),
        arith_ok(a),
    ensures
        match r {
            Ok(xs) => spec_pe_lvals(a, lvals_view(ls@), env@) == Ok::<Seq<LvalV>, EvalError>(
                lvals_view(xs@),
            ),
            Err(x) => spec_pe_lvals(a, lvals_view(ls@), env@) == Err::<Seq<LvalV>, EvalError>(x),
        },
{
    let ghost all = lvals_view(ls@);
    let mut out: Vec<Lval> = Vec::new();
    assert(all.take(0) =~= Seq::<LvalV>::empty());
    assert(lvals_view(out@) =~= Seq::<LvalV>::empty());
    for k in 0..ls.len()
        invariant
            env.wf(),
            arith_ok(a),
            all == lvals_view(ls@),
            spec_pe_lvals(a, all.take(k as int), env@) == Ok::<Seq<LvalV>, EvalError>(
                lvals_view(out@),
            ),
    {
        let ghost o0 = out@;
        assert(all.take(k + 1).drop_last() =~= all.take(k as int));
        assert(all.take(k + 1).last() == ls@[k as int]@);
        match try_part_eval_lval(copy_lval(&ls[k]), env, a) {
            Ok(x) => {
                out.push(x);
                assert(lvals_view(out@) =~= lvals_view(o0).push(x@));
            },
            Err(x) => {
                proof {
                    lemma_pe_lvals_prefix_err(a, all, env@, k as int + 1, x);
                }
                return Err(x);
            },
        }
    }
    assert(all.take(ls.len() as int) =~= all);
    Ok(out)
}

} // verus!

verus! {

fn filled_bools(n: usize) -> (r: Vec<bool>)
    ensures
        r@ == Seq::new(n as nat, |i: int| false),
{
    let mut v: Vec<bool> = Vec::new();
    for i in 0..n
        invariant
            v@ == Seq::new(i as nat, |j: int| false),
    {
        v.push(false);
        assert(v@ =~= Seq::new((i + 1) as nat, |j: int| false));
    }
    v
}

fn filled_ints(n: usize) -> (r: Vec<i64>)
    ensures
        r@ == Seq::new(n as nat, |i: int| 0i64),
{
    let mut v: Vec<i64> = Vec::new();
    for i in 0..n
        invariant
            v@ == Seq::new(i as nat, |j: int| 0i64),
    {
        v.push(0);
        assert(v@ =~= Seq::new((i + 1) as nat, |j: int| 0i64));
    }
    v
}

fn filled_floats(n: usize) -> (r: Vec<u64>)
    ensures
        r@ == Seq::new(n as nat, |i: int| 0u64),
{
    let mut v: Vec<u64> = Vec::new();
    for i in 0..n
        invariant
            v@ == Seq::new(i as nat, |j: int| 0u64),
    {
        v.push(0);
        assert(v@ =~= Seq::new((i + 1) as nat, |j: int| 0u64));
    }
    v
}

fn default_scalar_value(ty: Type) -> (r: Option<Value>)
    ensures
        crate::env::opt_view(r) == default_scalar(ty),
{
    match ty {
        Type::Cbit => Some(Value::Scalar(Scalar::Cbit(false))),
        Type::Int => Some(Value::Scalar(Scalar::Int(0))),
        Type::Float => Some(Value::Scalar(Scalar::Float(0))),
        Type::Qbit => None,
    }
}

fn default_array_value(ty: Type, n: usize) -> (r: Option<Value>)
    ensures
        crate::env::opt_view(r) == default_array(ty, n as nat),
{
    match ty {
        Type::Cbit => Some(Value::Array(Array::Cbit(filled_bools(n)))),
        Type::Int => Some(Value::Array(Array::Int(filled_ints(n)))),
        Type::Float => Some(Value::Array(Array::Float(filled_floats(n)))),
        Type::Qbit => None,
    }
}

fn declare_value(env: &mut ValueEnv, name: String, v: Option<Value>)
    requires
        old(env).wf(),
    ensures
        final(env).wf(),
        final(env)@ == declare(old(env)@, name@, crate::env::opt_view(v)),
{
    match v {
        Some(x) => env.insert(name, x),
        None => env.insert_none(name),
    }
}

fn known_all<A: Fn(FloatOp) -> u64>(es: &Vec<Exp>, env: &ValueEnv, a: &A) -> (r: Result<
    Vec<Scalar>,
    EvalError,
>)
    requires
        env.wf(),
        arith_ok(a),
    ensures
        match r {
            Ok(vs) => spec_known_all(a, exps_view(es@), env@) == Ok::<Seq<Scalar>, EvalError>(vs@),
            Err(x) => spec_known_all(a, exps_view(es@), env@) == Err::<Seq<Scalar>, EvalError>(x),
        },
{
    let ghost all = exps_view(es@);
    let mut out: Vec<Scalar> = Vec::new();
    assert(all.take(0) =~= Seq::<ExpV>::empty());
    for k in 0..es.len()
        invariant
            env.wf(),
            arith_ok(a),
            all == exps_view(es@),
            spec_known_all(a, all.take(k as int), env@) == Ok::<Seq<Scalar>, EvalError>(out@),
    {
        assert(all.take(k + 1).drop_last() =~= all.take(k as int));
        assert(all.take(k + 1).last() == es@[k as int]@);
        match const_of(&es[k], env, a) {
            Ok(v) => {
                out.push(v);
            },
            Err(x) => {
                proof {
                    lemma_known_all_prefix_err(a, all, env@, k as int + 1, x);
                }
                return Err(x);
            },
        }
    }
    assert(all.take(es.len() as int) =~= all);
    Ok(out)
}

proof fn lemma_known_all_prefix_err<A: Fn(FloatOp) -> u64>(
    a: &A,
    es: Seq<ExpV>,
    m: EnvV,
    n: int,
    x: EvalError,
)
    requires
        0 <= n <= es.len(),
        spec_known_all(a, es.take(n), m) == Err::<Seq<Scalar>, EvalError>(x),
    ensures
        spec_known_all(a, es, m) == Err::<Seq<Scalar>, EvalError>(x),
    decreases es.len() - n,
{
    if n < es.len() {
        assert(es.take(n + 1).drop_last() =~= es.take(n));
        lemma_known_all_prefix_err(a, es, m, n + 1, x);
    } else {
        assert(es.take(n) =~= es);
    }
}

fn all_const_nodes(es: &Vec<Exp>) -> (r: bool)
    ensures
        r == all_const(exps_view(es@)),
{
    for k in 0..es.len()
        invariant
            forall|j: int| 0 <= j < k ==> spec_is_const_node(#[trigger] exps_view(es@)[j]),
    {
        if !is_const_node(&es[k]) {
            assert(!spec_is_const_node(exps_view(es@)[k as int]));
            return false;
        }
    }
    true
}

/// Partially evaluates a declaration and records what it declares in the
/// environment; see [`spec_pe_decl`].
pub fn try_part_eval_declaration<A: Fn(FloatOp) -> u64>(d: Declaration, env: &mut ValueEnv, a: &A) -> (r: Result<
    Declaration,
    EvalError,
>)
    requires
        old(env).wf(),
        arith_ok(a),
    ensures
        final(env).wf(),
        match r {
            Ok(d2) => spec_pe_decl(a, d@, old(env)@) == Ok::<(DeclarationV, EnvV), EvalError>(
                (d2@, final(env)@),
            ),
            Err(x) => spec_pe_decl(a, d@, old(env)@) == Err::<(DeclarationV, EnvV), EvalError>(x),
        },
{
    reveal(spec_pe_decl);
    match d {
        Declaration::Uninit { ty, lval } => {
            let l2 = match try_part_eval_lval(lval, env, a) {
                Ok(x) => x,
                Err(x) => return Err(x),
            };
            match &l2 {
                Lval::Var(name) => {
                    declare_value(env, name.clone(), default_scalar_value(ty));
                },
                Lval::Array(name, e) => {
                    match try_interpret_exp(e, env, a) {
                        Err(x) => return Err(x),
                        Ok(Some(idx)) => {
                            let n = scalar_to_usize(idx, a);
                            declare_value(env, name.clone(), default_array_value(ty, n));
                        },
                        Ok(None) => {
                            declare_value(env, name.clone(), default_array_value(ty, 0));
                        },
                    }
                },
            }
            Ok(Declaration::Uninit { ty, lval: l2 })
        },
        Declaration::InitScalar { ty, name, value } => {
            let v2 = match try_part_eval_exp(value, env, a) {
                Ok(x) => x,
                Err(x) => return Err(x),
            };
            if is_const_node(&v2) {
                let val = match const_of(&v2, env, a) {
                    Ok(v) => v,
                    Err(x) => return Err(x),
                };
                let sv = match try_scalar_to_scalar(val, ty, a) {
                    Ok(v) => v,
                    Err(x) => return Err(x),
                };
                env.insert(name.clone(), Value::Scalar(sv));
            } else {
                env.insert_none(name.clone());
            }
            Ok(Declaration::InitScalar { ty, name, value: v2 })
        },
        Declaration::InitArray { ty, name, size, values } => {
            let s2 = match try_part_eval_exp(size, env, a) {
                Ok(x) => x,
                Err(x) => return Err(x),
            };
            let exps = match part_eval_exps(&values, env, a) {
                Ok(x) => x,
                Err(x) => return Err(x),
            };
            if all_const_nodes(&exps) {
                let vals = match known_all(&exps, env, a) {
                    Ok(v) => v,
                    Err(x) => return Err(x),
                };
                let arr = match try_scalars_to_array(vals, ty, a) {
                    Ok(v) => v,
                    Err(x) => return Err(x),
                };
                env.insert(name.clone(), Value::Array(arr));
            } else {
                env.insert_none(name.clone());
            }
            Ok(Declaration::InitArray { ty, name, size: s2, values: exps })
        },
    }
}

} // verus!

verus! {

/// A statement result paired with the environment after it.
pub open spec fn stmt_out(r: Result<Statement, EvalError>, m: EnvV) -> Result<
    (StatementV, EnvV),
    EvalError,
> {
    match r {
        Ok(st) => Ok((st@, m)),
        Err(x) => Err(x),
    }
}

fn store_elem_exec<A: Fn(FloatOp) -> u64>(
    env: &mut ValueEnv,
    name: &str,
    i: usize,
    val: Scalar,
    a: &A,
) -> (r: Result<(), EvalError>)
    requires
        old(env).wf(),
        arith_ok(a),
    ensures
        final(env).wf(),
        match r {
            Ok(_) => store_elem(a, old(env)@, name@, i as int, val) == Ok::<EnvV, EvalError>(
                final(env)@,
            ),
            Err(x) => store_elem(a, old(env)@, name@, i as int, val) == Err::<EnvV, EvalError>(x),
        },
{
    let ghost m = old(env)@;
    let ghost k = find_value(m, name@, m.len() as int)->0;
    match env.get_mut(name) {
        Some(v) => {
            let ghost v0 = *v;
            match v {
                Value::Array(Array::Int(vec)) => {
                    if i < vec.len() {
                        vec.set(i, scalar_to_i64(val, a));
                        Ok(())
                    } else {
                        Err(EvalError::IndexOutOfBounds)
                    }
                },
                Value::Array(Array::Float(vec)) => {
                    if i < vec.len() {
                        vec.set(i, scalar_to_f64(val, a));
                        Ok(())
                    } else {
                        Err(EvalError::IndexOutOfBounds)
                    }
                },
                Value::Array(Array::Cbit(vec)) => {
                    if i < vec.len() {
                        vec.set(i, scalar_to_bool(val));
                        Ok(())
                    } else {
                        Err(EvalError::IndexOutOfBounds)
                    }
                },
                Value::Scalar(_) => {
                    proof {
                        crate::env::lemma_find_value_range(m, name@, m.len() as int);
                    }
                    assert(m[k].insert(name@, Some(v0@)) =~= m[k]);
                    assert(m.update(k, m[k]) =~= m);
                    Ok(())
                },
            }
        },
        None => Ok(()),
    }
}

fn pe_assign<A: Fn(FloatOp) -> u64>(l: Lval, e: Exp, env: &mut ValueEnv, a: &A) -> (r: Result<
    Statement,
    EvalError,
>)
    requires
        old(env).wf(),
        arith_ok(a),
    ensures
        final(env).wf(),
        spec_pe_assign(a, l@, e@, old(env)@) == stmt_out(r, final(env)@),
{
    let l2 = match try_part_eval_lval(l, env, a) {
        Ok(x) => x,
        Err(x) => return Err(x),
    };
    let e2 = match try_part_eval_exp(e, env, a) {
        Ok(x) => x,
        Err(x) => return Err(x),
    };
    if is_const_node(&e2) {
        let val = match const_of(&e2, env, a) {
            Ok(v) => v,
            Err(x) => return Err(x),
        };
        match &l2 {
            Lval::Var(name) => {
                let _ = env.update(name.as_str(), Value::Scalar(val));
            },
            Lval::Array(name, idx) => {
                match try_interpret_exp(idx, env, a) {
                    Err(x) => return Err(x),
                    Ok(Some(iv)) => {
                        let i = scalar_to_usize(iv, a);
                        match store_elem_exec(env, name.as_str(), i, val, a) {
                            Ok(_) => {},
                            Err(x) => return Err(x),
                        }
                    },
                    Ok(None) => {},
                }
            },
        }
    } else {
        let n = lval_name(&l2);
        let _ = env.update_none(n.as_str());
    }
    Ok(Statement::Assignment(l2, e2))
}

} // verus!

verus! {

// ---------------------------------------------------------------------------
// Blocks: declarations, joining, and pruning
// ---------------------------------------------------------------------------

/// An error in a prefix is the error of the whole.
proof fn lemma_pe_decls_prefix_err<A: Fn(FloatOp) -> u64>(
    a: &A,
    ds: Seq<DeclarationV>,
    m: EnvV,
    n: int,
    x: EvalError,
)
    requires
        0 <= n <= ds.len(),
        spec_pe_decls(a, ds.take(n), m) == Err::<(Seq<DeclarationV>, EnvV), EvalError>(x),
    ensures
        spec_pe_decls(a, ds, m) == Err::<(Seq<DeclarationV>, EnvV), EvalError>(x),
    decreases ds.len() - n,
{
    if n < ds.len() {
        assert(ds.take(n + 1).drop_last() =~= ds.take(n));
        lemma_pe_decls_prefix_err(a, ds, m, n + 1, x);
    } else {
        assert(ds.take(n) =~= ds);
    }
}

/// An error in a prefix is the error of the whole.
proof fn lemma_pe_stmts_prefix_err<A: Fn(FloatOp) -> u64>(
    a: &A,
    cfg: PeCfg,
    fuel: nat,
    ss: Seq<StatementV>,
    m: EnvV,
    outer: Set<Seq<char>>,
    fd: Seq<DeclarationV>,
    n: int,
    x: EvalError,
)
    requires
        0 <= n <= ss.len(),
        spec_pe_stmts(a, cfg, fuel, ss.take(n), m, outer, fd) == Err::<
            (Seq<DeclarationV>, Seq<StatementV>, EnvV),
            EvalError,
        >(x),
    ensures
        spec_pe_stmts(a, cfg, fuel, ss, m, outer, fd) == Err::<
            (Seq<DeclarationV>, Seq<StatementV>, EnvV),
            EvalError,
        >(x),
    decreases ss.len() - n,
{
    if n < ss.len() {
        assert(ss.take(n + 1).drop_last() =~= ss.take(n));
        lemma_pe_stmts_prefix_err(a, cfg, fuel, ss, m, outer, fd, n + 1, x);
    } else {
        assert(ss.take(n) =~= ss);
    }
}

/// Partially evaluates declarations in order; see [`spec_pe_decls`].
fn pe_decls<A: Fn(FloatOp) -> u64>(ds: &Vec<Declaration>, env: &mut ValueEnv, a: &A) -> (r: Result<
    Vec<Declaration>,
    EvalError,
>)
    requires
        old(env).wf(),
        arith_ok(a),
    ensures
        final(env).wf(),
        match r {
            Ok(fd) => spec_pe_decls(a, decls_view(ds@), old(env)@) == Ok::<
                (Seq<DeclarationV>, EnvV),
                EvalError,
            >((decls_view(fd@), final(env)@)),
            Err(x) => spec_pe_decls(a, decls_view(ds@), old(env)@) == Err::<
                (Seq<DeclarationV>, EnvV),
                EvalError,
            >(x),
        },
{
    let ghost all = decls_view(ds@);
    let ghost m0 = old(env)@;
    let mut out: Vec<Declaration> = Vec::new();
    assert(all.take(0) =~= Seq::<DeclarationV>::empty());
    assert(decls_view(out@) =~= Seq::<DeclarationV>::empty());
    for k in 0..ds.len()
        invariant
            env.wf(),
            arith_ok(a),
            all == decls_view(ds@),
            m0 == old(env)@,
            spec_pe_decls(a, all.take(k as int), m0) == Ok::<(Seq<DeclarationV>, EnvV), EvalError>(
                (decls_view(out@), env@),
            ),
    {
        let ghost o0 = out@;
        assert(all.take(k + 1).drop_last() =~= all.take(k as int));
        assert(all.take(k + 1).last() == ds@[k as int]@);
        match try_part_eval_declaration(copy_decl(&ds[k]), env, a) {
            Ok(x) => {
                out.push(x);
                assert(decls_view(out@) =~= decls_view(o0).push(x@));
            },
            Err(x) => {
                proof {
                    lemma_pe_decls_prefix_err(a, all, m0, k as int + 1, x);
                }
                return Err(x);
            },
        }
    }
    assert(all.take(ds.len() as int) =~= all);
    Ok(out)
}

/// The names the declarations introduce.
fn decl_name_set(ds: &Vec<Declaration>) -> (r: NameSet)
    ensures
        r@ == decl_names(decls_view(ds@)),
{
    let mut names = NameSet::new();
    for k in 0..ds.len()
        invariant
            names@ == decl_names(decls_view(ds@).take(k as int)),
    {
        let ghost n0 = names@;
        names.insert(decl_name(&ds[k]).clone());
        assert(names@ =~= decl_names(decls_view(ds@).take(k + 1))) by {
            let t = decls_view(ds@).take(k + 1);
            assert forall|x: Seq<char>| names@.contains(x) implies decl_names(t).contains(x) by {
                if n0.contains(x) {
                    let i = choose|i: int|
                        0 <= i < k && decl_name_of(decls_view(ds@).take(k as int)[i]) == x;
                    assert(t[i] == decls_view(ds@).take(k as int)[i]);
                } else {
                    assert(t[k as int] == ds@[k as int]@);
                }
            }
            assert forall|x: Seq<char>| decl_names(t).contains(x) implies names@.contains(x) by {
                let i = choose|i: int| 0 <= i < t.len() && decl_name_of(t[i]) == x;
                if i < k {
                    assert(decls_view(ds@).take(k as int)[i] == t[i]);
                }
            }
        }
    }
    assert(decls_view(ds@).take(ds.len() as int) =~= decls_view(ds@));
    names
}

/// Whether one of the declarations declares a name of the set.
fn any_redeclared(inner: &Vec<Declaration>, names: &NameSet) -> (r: bool)
    ensures
        r == redeclares(decls_view(inner@), names@),
{
    for k in 0..inner.len()
        invariant
            forall|j: int|
                0 <= j < k ==> !names@.contains(decl_name_of(#[trigger] decls_view(inner@)[j])),
    {
        if names.contains(decl_name(&inner[k]).as_str()) {
            assert(names@.contains(decl_name_of(decls_view(inner@)[k as int])));
            return true;
        }
    }
    false
}

/// Joins one partially evaluated statement to the block being built; see
/// [`absorb`].
fn absorb_into(
    ds: &mut Vec<Declaration>,
    ss: &mut Vec<Statement>,
    r: Statement,
    outer: &NameSet,
    has_procs: bool,
    reduce: bool,
    Ghost(cfg): Ghost<PeCfg>,
)
    requires
        cfg.reduce == reduce,
        (cfg.procs is Some) == has_procs,
    ensures
        (decls_view(final(ds)@), stmts_view(final(ss)@)) == absorb(
            cfg,
            decls_view(old(ds)@),
            stmts_view(old(ss)@),
            r@,
            outer@,
        ),
{
    let ghost r0 = r;
    let ghost d0 = ds@;
    let ghost s0 = ss@;
    match r {
        Statement::Block(mut id, mut is) => {
            proof {
                lemma_block_view(id@, is@, r0);
            }
            let c = if reduce {
                let sofar = decl_name_set(ds);
                any_redeclared(&id, &sofar)
            } else {
                any_redeclared(&id, outer)
            };
            if c {
                let b = Statement::Block(id, is);
                assert(b == r0);
                ss.push(b);
                assert(stmts_view(ss@) =~= stmts_view(s0).push(r0@));
            } else {
                let ghost iv = id@;
                let ghost sv = is@;
                ds.append(&mut id);
                ss.append(&mut is);
                assert(decls_view(ds@) =~= decls_view(d0) + decls_view(iv));
                assert(stmts_view(ss@) =~= stmts_view(s0) + stmts_view(sv));
            }
        },
        Statement::Assignment(l, e) => {
            if !reduce && has_procs && is_const_node(&e) {
            } else {
                ss.push(Statement::Assignment(l, e));
                assert(stmts_view(ss@) =~= stmts_view(s0).push(r0@));
            }
        },
        other => {
            ss.push(other);
            assert(stmts_view(ss@) =~= stmts_view(s0).push(r0@));
        },
    }
}

/// The declarations whose names are in `used`; see [`keep_used_decls`].
fn keep_decls(ds: Vec<Declaration>, used: &NameSet) -> (r: Vec<Declaration>)
    ensures
        decls_view(r@) == keep_used_decls(decls_view(ds@), used@),
{
    let ghost all = decls_view(ds@);
    let mut out: Vec<Declaration> = Vec::new();
    assert(all.take(0) =~= Seq::<DeclarationV>::empty());
    assert(decls_view(out@) =~= Seq::<DeclarationV>::empty());
    for k in 0..ds.len()
        invariant
            all == decls_view(ds@),
            decls_view(out@) == keep_used_decls(all.take(k as int), used@),
    {
        let ghost o0 = out@;
        assert(all.take(k + 1).drop_last() =~= all.take(k as int));
        assert(all.take(k + 1).last() == ds@[k as int]@);
        if used.contains(decl_name(&ds[k]).as_str()) {
            out.push(copy_decl(&ds[k]));
            assert(decls_view(out@) =~= decls_view(o0).push(ds@[k as int]@));
        }
    }
    assert(all.take(ds.len() as int) =~= all);
    out
}

/// The statements but the assignments to names not in `used`; see
/// [`keep_used_assignments`].
fn keep_assigns(ss: Vec<Statement>, used: &NameSet) -> (r: Vec<Statement>)
    ensures
        stmts_view(r@) == keep_used_assignments(stmts_view(ss@), used@),
{
    let ghost all = stmts_view(ss@);
    let mut out: Vec<Statement> = Vec::new();
    assert(all.take(0) =~= Seq::<StatementV>::empty());
    assert(stmts_view(out@) =~= Seq::<StatementV>::empty());
    for k in 0..ss.len()
        invariant
            all == stmts_view(ss@),
            stmts_view(out@) == keep_used_assignments(all.take(k as int), used@),
    {
        let ghost o0 = out@;
        assert(all.take(k + 1).drop_last() =~= all.take(k as int));
        assert(all.take(k + 1).last() == ss@[k as int]@);
        let keep = match &ss[k] {
            Statement::Assignment(l, _) => used.contains(lval_name(l).as_str()),
            _ => true,
        };
        if keep {
            out.push(copy_stmt(&ss[k]));
            assert(stmts_view(out@) =~= stmts_view(o0).push(ss@[k as int]@));
        }
    }
    assert(all.take(ss.len() as int) =~= all);
    out
}

/// The declarations and statements that bind a call's arguments to the
/// procedure's parameters; see [`call_bindings`].
fn bind_call(params: &Vec<ParameterDeclaration>, args: &Vec<Lval>) -> (r: (
    Vec<Declaration>,
    Vec<Statement>,
))
    ensures
        (decls_view(r.0@), stmts_view(r.1@)) == call_bindings(
            params_view(params@),
            lvals_view(args@),
            min_len(params@.len(), args@.len()),
        ),
{
    let n = if params.len() < args.len() {
        params.len()
    } else {
        args.len()
    };
    let ghost pv = params_view(params@);
    let ghost av = lvals_view(args@);
    let mut ds: Vec<Declaration> = Vec::new();
    let mut ss: Vec<Statement> = Vec::new();
    assert(decls_view(ds@) =~= Seq::<DeclarationV>::empty());
    assert(stmts_view(ss@) =~= Seq::<StatementV>::empty());
    for k in 0..n
        invariant
            n <= params@.len(),
            n <= args@.len(),
            pv == params_view(params@),
            av == lvals_view(args@),
            (decls_view(ds@), stmts_view(ss@)) == call_bindings(pv, av, k as int),
    {
        let ghost d0 = ds@;
        let ghost s0 = ss@;
        assert(pv[k as int] == params@[k as int]@);
        assert(av[k as int] == args@[k as int]@);
        let pname = param_name(&params[k]);
        let aname = lval_name(&args[k]);
        if !text_eq(pname.as_str(), aname.as_str()) {
            let ghost arg = av[k as int];
            match &params[k] {
                ParameterDeclaration::Scalar { ty, name } => {
                    ds.push(
                        Declaration::InitScalar {
                            ty: *ty,
                            name: name.clone(),
                            value: Exp::Lval(copy_lval(&args[k])),
                        },
                    );
                    assert(decls_view(ds@) =~= decls_view(d0).push(
                        DeclarationV::InitScalar { ty: *ty, name: name@, value: ExpV::Lval(arg) },
                    ));
                    assert(stmts_view(ss@) =~= stmts_view(s0));
                },
                ParameterDeclaration::ArrayConst { ty, name, size } => {
                    ds.push(
                        Declaration::Uninit {
                            ty: *ty,
                            lval: Lval::Array(name.clone(), Box::new(Exp::Int(*size))),
                        },
                    );
                    ss.push(
                        Statement::Assignment(Lval::Var(name.clone()), Exp::Lval(copy_lval(&args[k]))),
                    );
                    assert(decls_view(ds@) =~= decls_view(d0).push(
                        DeclarationV::Uninit {
                            ty: *ty,
                            lval: LvalV::Array(name@, Box::new(ExpV::Int(*size))),
                        },
                    ));
                    assert(stmts_view(ss@) =~= stmts_view(s0).push(
                        StatementV::Assignment(LvalV::Var(name@), ExpV::Lval(arg)),
                    ));
                },
                ParameterDeclaration::ArrayVar { ty, name, size } => {
                    let len_var = Lval::Var(size.clone());
                    assert(len_var@ == LvalV::Var(size@));
                    let len_exp = Exp::Lval(len_var);
                    assert(len_exp@ == ExpV::Lval(LvalV::Var(size@)));
                    let target = Lval::Array(name.clone(), Box::new(len_exp));
                    assert(target@ == LvalV::Array(name@, Box::new(ExpV::Lval(LvalV::Var(size@)))));
                    ds.push(Declaration::Uninit { ty: *ty, lval: target });
                    ss.push(
                        Statement::Assignment(Lval::Var(name.clone()), Exp::Lval(copy_lval(&args[k]))),
                    );
                    assert(decls_view(ds@) =~= decls_view(d0).push(
                        DeclarationV::Uninit {
                            ty: *ty,
                            lval: LvalV::Array(name@, Box::new(ExpV::Lval(LvalV::Var(size@)))),
                        },
                    ));
                    assert(stmts_view(ss@) =~= stmts_view(s0).push(
                        StatementV::Assignment(LvalV::Var(name@), ExpV::Lval(arg)),
                    ));
                },
            }
            assert((decls_view(ds@), stmts_view(ss@)) == call_bindings(pv, av, k + 1));
        } else {
            assert((decls_view(ds@), stmts_view(ss@)) == call_bindings(pv, av, k + 1));
        }
    }
    (ds, ss)
}

} // verus!

verus! {

// ---------------------------------------------------------------------------
// Statements
// ---------------------------------------------------------------------------

/// Partially evaluates one statement, updating the environment; see
/// [`spec_pe_stmt`]. With `procs`, calls are inlined at most `fuel` deep.
pub fn pe_stmt<A: Fn(FloatOp) -> u64>(
    s: Statement,
    env: &mut ValueEnv,
    procs: Option<&ProcMap>,
    reduce: bool,
    limit: usize,
    fuel: usize,
    a: &A,
) -> (r: Result<Statement, EvalError>)
    requires
        old(env).wf(),
        procs_wf(procs),
        arith_ok(a),
    ensures
        final(env).wf(),
        spec_pe_stmt(a, cfg_of(procs, reduce, limit), fuel as nat, s@, old(env)@) == stmt_out(
            r,
            final(env)@,
        ),
    decreases fuel, s@, 2nat,
{
    let ghost s0 = s;
    reveal(spec_pe_stmt);
    match s {
        Statement::ProcedureCall(name, args) => pe_proc_call(
            name,
            args,
            env,
            procs,
            reduce,
            limit,
            fuel,
            a,
            Ghost(s0@),
        ),
        Statement::Assignment(l, e) => pe_assign(l, e, env, a),
        Statement::QUpdate(q) => match try_part_eval_qupdate(q, env, a) {
            Ok(q2) => Ok(Statement::QUpdate(q2)),
            Err(x) => Err(x),
        },
        Statement::ConditionalQUpdate(q, c) => {
            let q2 = match try_part_eval_qupdate(q, env, a) {
                Ok(x) => x,
                Err(x) => return Err(x),
            };
            match try_part_eval_lval(c, env, a) {
                Ok(c2) => Ok(Statement::ConditionalQUpdate(q2, c2)),
                Err(x) => Err(x),
            }
        },
        Statement::Measure(q, c) => {
            let q2 = match try_part_eval_lval(q, env, a) {
                Ok(x) => x,
                Err(x) => return Err(x),
            };
            match try_part_eval_lval(c, env, a) {
                Ok(c2) => Ok(Statement::Measure(q2, c2)),
                Err(x) => Err(x),
            }
        },
        Statement::Block(ds, ss) => {
            proof {
                lemma_block_view(ds@, ss@, s0);
            }
            pe_block(ds, ss, env, procs, reduce, limit, fuel, a, Ghost(s0@))
        },
        Statement::If(e, t, f) => pe_if(e, *t, *f, env, procs, reduce, limit, fuel, a, Ghost(s0@)),
        Statement::While(e, body) => pe_while(
            e,
            *body,
            env,
            procs,
            reduce,
            limit,
            fuel,
            a,
            Ghost(s0@),
        ),
    }
}

/// A call: its arguments are partially evaluated; with procedures, a known
/// one is inlined; see the call case of [`spec_pe_stmt`].
fn pe_proc_call<A: Fn(FloatOp) -> u64>(
    name: String,
    args: Vec<Lval>,
    env: &mut ValueEnv,
    procs: Option<&ProcMap>,
    reduce: bool,
    limit: usize,
    fuel: usize,
    a: &A,
    Ghost(whole): Ghost<StatementV>,
) -> (r: Result<Statement, EvalError>)
    requires
        old(env).wf(),
        procs_wf(procs),
        arith_ok(a),
        whole == StatementV::ProcedureCall(name@, lvals_view(args@)),
    ensures
        final(env).wf(),
        spec_pe_stmt(a, cfg_of(procs, reduce, limit), fuel as nat, whole, old(env)@) == stmt_out(
            r,
            final(env)@,
        ),
    decreases fuel, whole, 1nat,
{
    let ghost cfg = cfg_of(procs, reduce, limit);
    let ghost m = old(env)@;
    let ghost args_v = lvals_view(args@);
    let args2 = match part_eval_lvals(&args, env, a) {
        Ok(x) => x,
        Err(x) => {
            assert(spec_pe_stmt(a, cfg, fuel as nat, whole, m) == Err::<(StatementV, EnvV), EvalError>(
                x,
            )) by {
                reveal(spec_pe_stmt);
            }
            return Err(x);
        },
    };
    let ghost args2_v = lvals_view(args2@);
    assert(spec_pe_lvals(a, args_v, m) == Ok::<Seq<LvalV>, EvalError>(args2_v));
    match procs {
        None => {
            let r = Statement::ProcedureCall(name, args2);
            assert(spec_pe_stmt(a, cfg, fuel as nat, whole, m) == stmt_out(Ok(r), m)) by {
                reveal(spec_pe_stmt);
            }
            Ok(r)
        },
        Some(pm) => match pm.get(name.as_str()) {
            None => if reduce {
                let r = Statement::ProcedureCall(name, args2);
                assert(spec_pe_stmt(a, cfg, fuel as nat, whole, m) == stmt_out(Ok(r), m)) by {
                    reveal(spec_pe_stmt);
                }
                Ok(r)
            } else {
                assert(spec_pe_stmt(a, cfg, fuel as nat, whole, m) == Err::<
                    (StatementV, EnvV),
                    EvalError,
                >(EvalError::UndefinedProcedure)) by {
                    reveal(spec_pe_stmt);
                }
                Err(EvalError::UndefinedProcedure)
            },
            Some(p) => if fuel == 0 {
                assert(spec_pe_stmt(a, cfg, fuel as nat, whole, m) == Err::<
                    (StatementV, EnvV),
                    EvalError,
                >(EvalError::InliningTooDeep)) by {
                    reveal(spec_pe_stmt);
                }
                Err(EvalError::InliningTooDeep)
            } else {
                let ghost pv = p@;
                let ghost (bds, bss) = call_bindings(pv.params, args2_v, min_len(pv.params.len(), args2_v.len()));
                assert(spec_pe_stmt(a, cfg, fuel as nat, whole, m) == if bds.len() == 0 {
                    spec_pe_stmt(a, cfg, (fuel - 1) as nat, pv.body, m)
                } else {
                    spec_pe_stmt(a, cfg, (fuel - 1) as nat, StatementV::Block(bds, bss.push(pv.body)), m)
                }) by {
                    reveal(spec_pe_stmt);
                }
                pe_call(p, &args2, env, procs, reduce, limit, fuel, a, Ghost(whole))
            },
        },
    }
}

/// A conditional: a known condition selects a branch, otherwise both
/// branches are partially evaluated in turn; see [`spec_pe_stmt`].
fn pe_if<A: Fn(FloatOp) -> u64>(
    e: Exp,
    t: Statement,
    f: Statement,
    env: &mut ValueEnv,
    procs: Option<&ProcMap>,
    reduce: bool,
    limit: usize,
    fuel: usize,
    a: &A,
    Ghost(whole): Ghost<StatementV>,
) -> (r: Result<Statement, EvalError>)
    requires
        old(env).wf(),
        procs_wf(procs),
        arith_ok(a),
        whole == StatementV::If(e@, Box::new(t@), Box::new(f@)),
    ensures
        final(env).wf(),
        spec_pe_stmt(a, cfg_of(procs, reduce, limit), fuel as nat, whole, old(env)@) == stmt_out(
            r,
            final(env)@,
        ),
    decreases fuel, whole, 1nat,
{
    reveal(spec_pe_stmt);
    proof {
        assert(decreases_to!(whole => whole->If_1));
        assert(decreases_to!(whole => whole->If_2));
    }
    let c = match try_part_eval_exp(e, env, a) {
        Ok(x) => x,
        Err(x) => return Err(x),
    };
    if is_const_node(&c) {
        match const_of(&c, env, a) {
            Err(x) => Err(x),
            Ok(Scalar::Cbit(true)) => pe_stmt(t, env, procs, reduce, limit, fuel, a),
            Ok(Scalar::Cbit(false)) => pe_stmt(f, env, procs, reduce, limit, fuel, a),
            Ok(_) => Err(EvalError::NonBooleanCondition),
        }
    } else {
        let t2 = match pe_stmt(t, env, procs, reduce, limit, fuel, a) {
            Ok(x) => x,
            Err(x) => return Err(x),
        };
        let f2 = match pe_stmt(f, env, procs, reduce, limit, fuel, a) {
            Ok(x) => x,
            Err(x) => return Err(x),
        };
        Ok(Statement::If(c, Box::new(t2), Box::new(f2)))
    }
}

/// Inlines a call of `p` with the (partially evaluated) arguments `args`:
/// the body, preceded by the bindings of parameters whose names differ from
/// their arguments' names, is partially evaluated with one unit less fuel.
fn pe_call<A: Fn(FloatOp) -> u64>(
    p: &Procedure,
    args: &Vec<Lval>,
    env: &mut ValueEnv,
    procs: Option<&ProcMap>,
    reduce: bool,
    limit: usize,
    fuel: usize,
    a: &A,
    Ghost(whole): Ghost<StatementV>,
) -> (r: Result<Statement, EvalError>)
    requires
        old(env).wf(),
        procs_wf(procs),
        arith_ok(a),
        fuel > 0,
    ensures
        final(env).wf(),
        ({
            let pv = p@;
            let (ds, ss) = call_bindings(
                pv.params,
                lvals_view(args@),
                min_len(pv.params.len(), lvals_view(args@).len()),
            );
            if ds.len() == 0 {
                spec_pe_stmt(a, cfg_of(procs, reduce, limit), (fuel - 1) as nat, pv.body, old(env)@)
            } else {
                spec_pe_stmt(
                    a,
                    cfg_of(procs, reduce, limit),
                    (fuel - 1) as nat,
                    StatementV::Block(ds, ss.push(pv.body)),
                    old(env)@,
                )
            }
        }) == stmt_out(r, final(env)@),
    decreases fuel, whole, 0nat,
{
    let (ds, mut ss) = bind_call(&p.params, args);
    if ds.len() == 0 {
        pe_stmt(copy_stmt(&p.body), env, procs, reduce, limit, fuel - 1, a)
    } else {
        let ghost s0 = ss@;
        ss.push(copy_stmt(&p.body));
        assert(stmts_view(ss@) =~= stmts_view(s0).push(p.body@));
        let ghost dv = ds@;
        let ghost sv = ss@;
        let b = Statement::Block(ds, ss);
        proof {
            lemma_block_view(dv, sv, b);
        }
        pe_stmt(b, env, procs, reduce, limit, fuel - 1, a)
    }
}

/// Partially evaluates a block; see the block case of [`spec_pe_stmt`].
fn pe_block<A: Fn(FloatOp) -> u64>(
    ds: Vec<Declaration>,
    ss: Vec<Statement>,
    env: &mut ValueEnv,
    procs: Option<&ProcMap>,
    reduce: bool,
    limit: usize,
    fuel: usize,
    a: &A,
    Ghost(whole): Ghost<StatementV>,
) -> (r: Result<Statement, EvalError>)
    requires
        old(env).wf(),
        procs_wf(procs),
        arith_ok(a),
        whole == StatementV::Block(decls_view(ds@), stmts_view(ss@)),
    ensures
        final(env).wf(),
        spec_pe_stmt(a, cfg_of(procs, reduce, limit), fuel as nat, whole, old(env)@) == stmt_out(
            r,
            final(env)@,
        ),
    decreases fuel, whole, 1nat,
{
    reveal(spec_pe_stmt);
    let pushed = ds.len() > 0;
    if pushed {
        env.push_empty_scope();
    }
    let fd = match pe_decls(&ds, env, a) {
        Ok(x) => x,
        Err(x) => return Err(x),
    };
    let outer = decl_name_set(&fd);
    let (d, st) = match pe_stmts(&ss, env, procs, reduce, limit, fuel, a, &outer, fd, Ghost(whole)) {
        Ok(x) => x,
        Err(x) => return Err(x),
    };
    if pushed {
        env.pop_scope();
    }
    let used = used_vars_all(&st);
    let d2 = if reduce || procs.is_some() {
        keep_decls(d, &used)
    } else {
        d
    };
    let mut st2 = if reduce {
        keep_assigns(st, &used)
    } else {
        st
    };
    if d2.len() == 0 && st2.len() == 1 {
        assert(stmts_view(st2@)[0] == st2@[0]@);
        let x = st2.remove(0);
        Ok(x)
    } else {
        let ghost dv = d2@;
        let ghost sv = st2@;
        let b = Statement::Block(d2, st2);
        proof {
            lemma_block_view(dv, sv, b);
        }
        Ok(b)
    }
}

/// Partially evaluates the statements of a block in order, joining each
/// result to the declarations `fd` and the statements so far; see
/// [`spec_pe_stmts`].
fn pe_stmts<A: Fn(FloatOp) -> u64>(
    ss: &Vec<Statement>,
    env: &mut ValueEnv,
    procs: Option<&ProcMap>,
    reduce: bool,
    limit: usize,
    fuel: usize,
    a: &A,
    outer: &NameSet,
    fd: Vec<Declaration>,
    Ghost(whole): Ghost<StatementV>,
) -> (r: Result<(Vec<Declaration>, Vec<Statement>), EvalError>)
    requires
        old(env).wf(),
        procs_wf(procs),
        arith_ok(a),
        whole matches StatementV::Block(_, sv) && sv == stmts_view(ss@),
    ensures
        final(env).wf(),
        match r {
            Ok((d, st)) => spec_pe_stmts(
                a,
                cfg_of(procs, reduce, limit),
                fuel as nat,
                stmts_view(ss@),
                old(env)@,
                outer@,
                decls_view(fd@),
            ) == Ok::<(Seq<DeclarationV>, Seq<StatementV>, EnvV), EvalError>(
                (decls_view(d@), stmts_view(st@), final(env)@),
            ),
            Err(x) => spec_pe_stmts(
                a,
                cfg_of(procs, reduce, limit),
                fuel as nat,
                stmts_view(ss@),
                old(env)@,
                outer@,
                decls_view(fd@),
            ) == Err::<(Seq<DeclarationV>, Seq<StatementV>, EnvV), EvalError>(x),
        },
    decreases fuel, whole, 0nat,
{
    let ghost all = stmts_view(ss@);
    let ghost m0 = old(env)@;
    let ghost fdv = decls_view(fd@);
    let ghost cfg = cfg_of(procs, reduce, limit);
    let mut d = fd;
    let mut st: Vec<Statement> = Vec::new();
    assert(all.take(0) =~= Seq::<StatementV>::empty());
    assert(stmts_view(st@) =~= Seq::<StatementV>::empty());
    for k in 0..ss.len()
        invariant
            env.wf(),
            procs_wf(procs),
            arith_ok(a),
            all == stmts_view(ss@),
            m0 == old(env)@,
            cfg == cfg_of(procs, reduce, limit),
            whole matches StatementV::Block(_, sv) && sv == all,
            fdv == decls_view(fd@),
            spec_pe_stmts(a, cfg, fuel as nat, all.take(k as int), m0, outer@, fdv) == Ok::<
                (Seq<DeclarationV>, Seq<StatementV>, EnvV),
                EvalError,
            >((decls_view(d@), stmts_view(st@), env@)),
    {
        assert(all.take(k + 1).drop_last() =~= all.take(k as int));
        assert(all.take(k + 1).last() == ss@[k as int]@);
        let c = copy_stmt(&ss[k]);
        proof {
            assert(decreases_to!(whole => whole->Block_1));
            assert(decreases_to!(all => all[k as int]));
        }
        let ghost e0 = env@;
        match pe_stmt(c, env, procs, reduce, limit, fuel, a) {
            Ok(r) => {
                let ghost rv = r@;
                absorb_into(&mut d, &mut st, r, outer, procs.is_some(), reduce, Ghost(cfg));
                assert(spec_pe_stmt(a, cfg, fuel as nat, all.take(k + 1).last(), e0) == Ok::<
                    (StatementV, EnvV),
                    EvalError,
                >((rv, env@)));
                assert(spec_pe_stmts(a, cfg, fuel as nat, all.take(k + 1), m0, outer@, fdv) == Ok::<
                    (Seq<DeclarationV>, Seq<StatementV>, EnvV),
                    EvalError,
                >((decls_view(d@), stmts_view(st@), env@))) by {
                    reveal(spec_pe_stmt);
                }
            },
            Err(x) => {
                assert(spec_pe_stmt(a, cfg, fuel as nat, all.take(k + 1).last(), e0) == Err::<
                    (StatementV, EnvV),
                    EvalError,
                >(x));
                assert(spec_pe_stmts(a, cfg, fuel as nat, all.take(k + 1), m0, outer@, fdv) == Err::<
                    (Seq<DeclarationV>, Seq<StatementV>, EnvV),
                    EvalError,
                >(x)) by {
                    reveal(spec_pe_stmt);
                }
                proof {
                    lemma_pe_stmts_prefix_err(a, cfg, fuel as nat, all, m0, outer@, fdv, k + 1, x);
                }
                return Err(x);
            },
        }
    }
    assert(all.take(ss.len() as int) =~= all);
    Ok((d, st))
}

/// Unrolls a loop while its condition is known; see the loop case of
/// [`spec_pe_stmt`] and [`spec_unroll`].
fn pe_while<A: Fn(FloatOp) -> u64>(
    e: Exp,
    body: Statement,
    env: &mut ValueEnv,
    procs: Option<&ProcMap>,
    reduce: bool,
    limit: usize,
    fuel: usize,
    a: &A,
    Ghost(whole): Ghost<StatementV>,
) -> (r: Result<Statement, EvalError>)
    requires
        old(env).wf(),
        procs_wf(procs),
        arith_ok(a),
        whole == StatementV::While(e@, Box::new(body@)),
    ensures
        final(env).wf(),
        spec_pe_stmt(a, cfg_of(procs, reduce, limit), fuel as nat, whole, old(env)@) == stmt_out(
            r,
            final(env)@,
        ),
    decreases fuel, whole, 1nat,
{
    reveal(spec_pe_stmt);
    let ghost cfg = cfg_of(procs, reduce, limit);
    let ghost m0 = old(env)@;
    let mut iter_env = env.deep_copy();
    let mut iters: Vec<Statement> = Vec::new();
    let mut n = limit;
    assert(stmts_view(iters@) =~= Seq::<StatementV>::empty());
    while n > 0
        invariant
            env.wf(),
            iter_env.wf(),
            procs_wf(procs),
            arith_ok(a),
            m0 == old(env)@,
            env@ == m0,
            cfg == cfg_of(procs, reduce, limit),
            whole == StatementV::While(e@, Box::new(body@)),
            n <= limit,
            spec_unroll(a, cfg, fuel as nat, e@, body@, limit as nat, m0, Seq::empty())
                == spec_unroll(a, cfg, fuel as nat, e@, body@, n as nat, iter_env@, stmts_view(iters@)),
        decreases n,
    {
        proof {
            reveal(spec_pe_stmt);
        }
        match try_interpret_exp(&e, &iter_env, a) {
            Err(x) => {
                return Err(x);
            },
            Ok(Some(Scalar::Cbit(true))) => {
                let c = copy_stmt(&body);
                proof {
                    assert(decreases_to!(whole => whole->While_1));
                }
                match pe_stmt(c, &mut iter_env, procs, reduce, limit, fuel, a) {
                    Ok(b2) => {
                        let ghost i0 = iters@;
                        iters.push(b2);
                        assert(stmts_view(iters@) =~= stmts_view(i0).push(b2@));
                    },
                    Err(x) => {
                        return Err(x);
                    },
                }
                n = n - 1;
            },
            Ok(Some(Scalar::Cbit(false))) => {
                *env = iter_env;
                let ds: Vec<Declaration> = Vec::new();
                let ghost dv = ds@;
                let ghost sv = iters@;
                assert(decls_view(dv) =~= Seq::<DeclarationV>::empty());
                let b = Statement::Block(ds, iters);
                proof {
                    lemma_block_view(dv, sv, b);
                }
                return Ok(b);
            },
            _ => {
                return Ok(Statement::While(e, Box::new(body)));
            },
        }
    }
    Ok(Statement::While(e, Box::new(body)))
}

} // verus!

verus! {

// ---------------------------------------------------------------------------
// Procedures and programs
// ---------------------------------------------------------------------------

/// The configuration of partial evaluation proper.
pub open spec fn pe_cfg(procs: Option<ProcsV>) -> PeCfg {
    PeCfg { procs, reduce: false, limit: MAX_UNROLL as nat }
}

/// The scope that declares a procedure's parameters without values.
pub open spec fn param_scope(ps: Seq<ParamV>) -> Map<Seq<char>, Option<ValueV>>
    decreases ps.len(),
{
    if ps.len() == 0 {
        Map::empty()
    } else {
        param_scope(ps.drop_last()).insert(param_name_of(ps.last()), None)
    }
}

/// Partial evaluation of a procedure: its body is partially evaluated with
/// `cfg`, in a scope that declares the parameters without values unless it
/// is the main procedure.
pub open spec fn spec_pe_procedure<A: Fn(FloatOp) -> u64>(
    a: &A,
    cfg: PeCfg,
    p: ProcedureV,
    m: EnvV,
    is_main: bool,
) -> Result<(ProcedureV, EnvV), EvalError> {
    let m1 = if is_main {
        m
    } else {
        m.push(param_scope(p.params))
    };
    match spec_pe_stmt(a, cfg, MAX_INLINE as nat, p.body, m1) {
        Err(x) => Err(x),
        Ok((b, m2)) => Ok(
            (
                ProcedureV { name: p.name, params: p.params, body: b },
                if is_main {
                    m2
                } else {
                    pop_scope_of(m2)
                },
            ),
        ),
    }
}

/// A procedure result paired with the environment after it.
pub open spec fn proc_out(r: Result<Procedure, EvalError>, m: EnvV) -> Result<
    (ProcedureV, EnvV),
    EvalError,
> {
    match r {
        Ok(p) => Ok((p@, m)),
        Err(x) => Err(x),
    }
}

/// The entries that declare the parameters without values.
fn param_entries(ps: &Vec<ParameterDeclaration>) -> (r: Vec<(String, Option<Value>)>)
    ensures
        crate::env::entries_map(r@) == param_scope(params_view(ps@)),
{
    let ghost pv = params_view(ps@);
    let mut out: Vec<(String, Option<Value>)> = Vec::new();
    assert(pv.take(0) =~= Seq::<ParamV>::empty());
    for k in 0..ps.len()
        invariant
            pv == params_view(ps@),
            out@.len() == k,
            crate::env::entries_map(out@) == param_scope(pv.take(k as int)),
    {
        let ghost o0 = out@;
        out.push((param_name(&ps[k]), None));
        assert(out@.drop_last() =~= o0);
        assert(pv.take(k + 1).drop_last() =~= pv.take(k as int));
        assert(pv.take(k + 1).last() == ps@[k as int]@);
    }
    assert(pv.take(ps.len() as int) =~= pv);
    out
}

/// Partially evaluates a procedure with the configuration `cfg_of(procs,
/// reduce, limit)`; see [`spec_pe_procedure`].
fn pe_procedure<A: Fn(FloatOp) -> u64>(
    p: Procedure,
    env: &mut ValueEnv,
    procs: Option<&ProcMap>,
    is_main: bool,
    reduce: bool,
    limit: usize,
    a: &A,
) -> (r: Result<Procedure, EvalError>)
    requires
        old(env).wf(),
        procs_wf(procs),
        arith_ok(a),
    ensures
        final(env).wf(),
        spec_pe_procedure(a, cfg_of(procs, reduce, limit), p@, old(env)@, is_main) == proc_out(
            r,
            final(env)@,
        ),
{
    if !is_main {
        let entries = param_entries(&p.params);
        env.push_scope(entries);
    }
    let body = match pe_stmt(p.body, env, procs, reduce, limit, MAX_INLINE, a) {
        Ok(b) => b,
        Err(x) => return Err(x),
    };
    if !is_main {
        env.pop_scope();
    }
    Ok(Procedure { name: p.name, params: p.params, body })
}

/// Partially evaluates a statement (procedure calls are inlined from `map`
/// when it is given); see [`spec_pe_stmt`].
/// Calls are inlined at most [`MAX_INLINE`] deep; deeper inlining gives
/// [`EvalError::InliningTooDeep`].
pub fn try_part_eval_statement<A: Fn(FloatOp) -> u64>(
    s: Statement,
    env: &mut ValueEnv,
    map: Option<&ProcMap>,
    a: &A,
) -> (r: Result<Statement, EvalError>)
    requires
        old(env).wf(),
        procs_wf(map),
        arith_ok(a),
    ensures
        final(env).wf(),
        spec_pe_stmt(a, pe_cfg(procs_model(map)), MAX_INLINE as nat, s@, old(env)@) == stmt_out(
            r,
            final(env)@,
        ),
{
    pe_stmt(s, env, map, false, MAX_UNROLL, MAX_INLINE, a)
}

/// Partially evaluates a procedure's body; unless it is the main procedure,
/// its parameters are declared without values around it; see
/// [`spec_pe_procedure`].
/// Calls are inlined at most [`MAX_INLINE`] deep; deeper inlining gives
/// [`EvalError::InliningTooDeep`].
pub fn try_part_eval_procedure<A: Fn(FloatOp) -> u64>(
    p: Procedure,
    env: &mut ValueEnv,
    map: Option<&ProcMap>,
    is_main: bool,
    a: &A,
) -> (r: Result<Procedure, EvalError>)
    requires
        old(env).wf(),
        procs_wf(map),
        arith_ok(a),
    ensures
        final(env).wf(),
        spec_pe_procedure(a, pe_cfg(procs_model(map)), p@, old(env)@, is_main) == proc_out(
            r,
            final(env)@,
        ),
{
    pe_procedure(p, env, map, is_main, false, MAX_UNROLL, a)
}

/// The partial evaluations of procedures, each from the environment `m`
/// (the first as the main procedure), up to the first error.
pub open spec fn spec_pe_each<A: Fn(FloatOp) -> u64>(
    a: &A,
    cfg: PeCfg,
    ps: Seq<ProcedureV>,
    m: EnvV,
) -> Result<Seq<ProcedureV>, EvalError>
    decreases ps.len(),
{
    if ps.len() == 0 {
        Ok(Seq::empty())
    } else {
        match spec_pe_each(a, cfg, ps.drop_last(), m) {
            Err(x) => Err(x),
            Ok(qs) => match spec_pe_procedure(a, cfg, ps.last(), m, ps.len() == 1) {
                Err(x) => Err(x),
                Ok((q, _)) => Ok(qs.push(q)),
            },
        }
    }
}

/// The table of procedures by name (a later one replaces an earlier one of
/// the same name).
pub open spec fn proc_table(qs: Seq<ProcedureV>) -> Map<Seq<char>, Option<ProcedureV>>
    decreases qs.len(),
{
    if qs.len() == 0 {
        Map::empty()
    } else {
        proc_table(qs.drop_last()).insert(qs.last().name, Some(qs.last()))
    }
}

/// Partial evaluation of a program: every procedure is partially evaluated
/// on its own; then the main (first) one is partially evaluated again with
/// all of them available for inlining. The result holds that one procedure.
pub open spec fn spec_pe_program<A: Fn(FloatOp) -> u64>(a: &A, p: ProgramV, m: EnvV) -> Result<
    ProgramV,
    EvalError,
> {
    if p.procedures.len() == 0 {
        Err(EvalError::NoProcedures)
    } else {
        match spec_pe_each(a, pe_cfg(None), p.procedures, m) {
            Err(x) => Err(x),
            Ok(qs) => match spec_pe_procedure(a, pe_cfg(Some(seq![proc_table(qs)])), qs[0], m, true) {
                Err(x) => Err(x),
                Ok((q, _)) => Ok(ProgramV { procedures: seq![q] }),
            },
        }
    }
}

proof fn lemma_pe_each_prefix_err<A: Fn(FloatOp) -> u64>(
    a: &A,
    cfg: PeCfg,
    ps: Seq<ProcedureV>,
    m: EnvV,
    n: int,
    x: EvalError,
)
    requires
        0 <= n <= ps.len(),
        spec_pe_each(a, cfg, ps.take(n), m) == Err::<Seq<ProcedureV>, EvalError>(x),
    ensures
        spec_pe_each(a, cfg, ps, m) == Err::<Seq<ProcedureV>, EvalError>(x),
    decreases ps.len() - n,
{
    if n < ps.len() {
        assert(ps.take(n + 1).drop_last() =~= ps.take(n));
        lemma_pe_each_prefix_err(a, cfg, ps, m, n + 1, x);
    } else {
        assert(ps.take(n) =~= ps);
    }
}

/// Partially evaluates each procedure on its own from a copy of `env`; the
/// result holds the first one and the table of all of them.
fn pe_each<A: Fn(FloatOp) -> u64>(procs: &Vec<Procedure>, env: &ValueEnv, a: &A) -> (r: Result<
    (Procedure, ProcMap),
    EvalError,
>)
    requires
        env.wf(),
        arith_ok(a),
        procs@.len() > 0,
    ensures
        match r {
            Ok((main, map)) => {
                &&& map.wf()
                &&& spec_pe_each(a, pe_cfg(None), procs_view(procs@), env@) matches Ok(qs)
                &&& qs.len() > 0
                &&& main@ == qs[0]
                &&& map@ == seq![proc_table(qs)]
            },
            Err(x) => spec_pe_each(a, pe_cfg(None), procs_view(procs@), env@) == Err::<
                Seq<ProcedureV>,
                EvalError,
            >(x),
        },
{
    let ghost pv = procs_view(procs@);
    let ghost m = env@;
    let ghost cfg = pe_cfg(None);
    let mut e0 = env.deep_copy();
    assert(pv.take(1).drop_last() =~= Seq::<ProcedureV>::empty());
    assert(pv.take(1).last() == procs@[0]@);
    assert(spec_pe_each(a, cfg, Seq::<ProcedureV>::empty(), m) == Ok::<Seq<ProcedureV>, EvalError>(
        Seq::empty(),
    ));
    assert(proc_table(Seq::<ProcedureV>::empty()) == Map::<Seq<char>, Option<ProcedureV>>::empty());
    let first = match pe_procedure(copy_procedure(&procs[0]), &mut e0, None, true, false, MAX_UNROLL, a) {
        Ok(q) => q,
        Err(x) => {
            proof {
                lemma_pe_each_prefix_err(a, cfg, pv, m, 1, x);
            }
            return Err(x);
        },
    };
    let main = copy_procedure(&first);
    let ghost mut qs: Seq<ProcedureV> = seq![first@];
    let mut map: ProcMap = Env::new();
    map.insert(first.name.clone(), first);
    assert(qs.drop_last() =~= Seq::<ProcedureV>::empty());
    assert(map@ =~= seq![proc_table(qs)]);
    for k in 1..procs.len()
        invariant
            env.wf(),
            arith_ok(a),
            map.wf(),
            env@ == m,
            pv == procs_view(procs@),
            cfg == pe_cfg(None),
            qs.len() == k,
            qs[0] == main@,
            spec_pe_each(a, cfg, pv.take(k as int), m) == Ok::<Seq<ProcedureV>, EvalError>(qs),
            map@ == seq![proc_table(qs)],
    {
        assert(pv.take(k + 1).drop_last() =~= pv.take(k as int));
        assert(pv.take(k + 1).last() == procs@[k as int]@);
        let mut e = env.deep_copy();
        match pe_procedure(copy_procedure(&procs[k]), &mut e, None, false, false, MAX_UNROLL, a) {
            Ok(q) => {
                let ghost q0 = qs;
                proof {
                    qs = qs.push(q@);
                }
                assert(qs.drop_last() =~= q0);
                map.insert(q.name.clone(), q);
                assert(map@ =~= seq![proc_table(qs)]);
            },
            Err(x) => {
                proof {
                    lemma_pe_each_prefix_err(a, cfg, pv, m, k + 1, x);
                }
                return Err(x);
            },
        }
    }
    assert(pv.take(procs.len() as int) =~= pv);
    Ok((main, map))
}

/// Partially evaluates a program; see [`spec_pe_program`]. A program without
/// procedures is refused.
/// Calls are inlined at most [`MAX_INLINE`] deep; deeper inlining gives
/// [`EvalError::InliningTooDeep`].
pub fn try_part_eval_program<A: Fn(FloatOp) -> u64>(p: Program, env: ValueEnv, a: &A) -> (r: Result<
    Program,
    EvalError,
>)
    requires
        env.wf(),
        arith_ok(a),
    ensures
        rv(r) == spec_pe_program(a, p@, env@),
{
    if p.procedures.len() == 0 {
        return Err(EvalError::NoProcedures);
    }
    let (main, map) = match pe_each(&p.procedures, &env, a) {
        Ok(x) => x,
        Err(x) => return Err(x),
    };
    let mut env2 = env;
    let q = match pe_procedure(main, &mut env2, Some(&map), true, false, MAX_UNROLL, a) {
        Ok(q) => q,
        Err(x) => return Err(x),
    };
    let ghost qv = q@;
    let out = Program { procedures: vec![q] };
    assert(out@.procedures =~= seq![qv]);
    Ok(out)
}

} // verus!

verus! {

// ---------------------------------------------------------------------------
// Partial evaluation of input on which it succeeds
// ---------------------------------------------------------------------------
//
// Partial evaluation of a program that cannot be evaluated (an unknown
// operator, a value of the wrong kind, an index out of range, ...) is a fatal
// error. The functions below take only input on which it succeeds; the
// `try_` functions take any input and say which error comes.

/// Partially evaluates an expression; see [`spec_pe_exp`].
pub fn part_eval_exp<A: Fn(FloatOp) -> u64>(exp: Exp, env: &ValueEnv, a: &A) -> (r: Exp)
    requires
        env.wf(),
        arith_ok(a),
        spec_pe_exp(a, exp@, env@) is Ok,
    ensures
        spec_pe_exp(a, exp@, env@) == Ok::<ExpV, EvalError>(r@),
{
    try_part_eval_exp(exp, env, a).unwrap()
}

/// Partially evaluates a location; see [`spec_pe_lval`].
pub fn part_eval_lval<A: Fn(FloatOp) -> u64>(l: Lval, env: &ValueEnv, a: &A) -> (r: Lval)
    requires
        env.wf(),
        arith_ok(a),
        spec_pe_lval(a, l@, env@) is Ok,
    ensures
        spec_pe_lval(a, l@, env@) == Ok::<LvalV, EvalError>(r@),
{
    try_part_eval_lval(l, env, a).unwrap()
}

/// Partially evaluates a gate; see [`spec_pe_gate`].
pub fn part_eval_gate<A: Fn(FloatOp) -> u64>(g: Gate, env: &ValueEnv, a: &A) -> (r: Gate)
    requires
        env.wf(),
        arith_ok(a),
        spec_pe_gate(a, g@, env@) is Ok,
    ensures
        spec_pe_gate(a, g@, env@) == Ok::<GateV, EvalError>(r@),
{
    try_part_eval_gate(g, env, a).unwrap()
}

/// Partially evaluates a quantum update; see [`spec_pe_qupdate`].
pub fn part_eval_qupdate<A: Fn(FloatOp) -> u64>(q: QUpdate, env: &ValueEnv, a: &A) -> (r: QUpdate)
    requires
        env.wf(),
        arith_ok(a),
        spec_pe_qupdate(a, q@, env@) is Ok,
    ensures
        spec_pe_qupdate(a, q@, env@) == Ok::<QUpdateV, EvalError>(r@),
{
    try_part_eval_qupdate(q, env, a).unwrap()
}

/// Partially evaluates a declaration and enters it; see [`spec_pe_decl`].
pub fn part_eval_declaration<A: Fn(FloatOp) -> u64>(d: Declaration, env: &mut ValueEnv, a: &A) -> (r: Declaration)
    requires
        old(env).wf(),
        arith_ok(a),
        spec_pe_decl(a, d@, old(env)@) is Ok,
    ensures
        final(env).wf(),
        spec_pe_decl(a, d@, old(env)@) == Ok::<(DeclarationV, EnvV), EvalError>((r@, final(env)@)),
{
    try_part_eval_declaration(d, env, a).unwrap()
}

/// Partially evaluates a statement; see [`spec_pe_stmt`].
/// Calls are inlined at most [`MAX_INLINE`] deep; deeper inlining gives
/// [`EvalError::InliningTooDeep`].
pub fn part_eval_statement<A: Fn(FloatOp) -> u64>(
    s: Statement,
    env: &mut ValueEnv,
    map: Option<&ProcMap>,
    a: &A,
) -> (r: Statement)
    requires
        old(env).wf(),
        procs_wf(map),
        arith_ok(a),
        spec_pe_stmt(a, pe_cfg(procs_model(map)), MAX_INLINE as nat, s@, old(env)@) is Ok,
    ensures
        final(env).wf(),
        spec_pe_stmt(a, pe_cfg(procs_model(map)), MAX_INLINE as nat, s@, old(env)@) == Ok::<
            (StatementV, EnvV),
            EvalError,
        >((r@, final(env)@)),
{
    try_part_eval_statement(s, env, map, a).unwrap()
}

/// Partially evaluates a procedure; see [`spec_pe_procedure`].
/// Calls are inlined at most [`MAX_INLINE`] deep; deeper inlining gives
/// [`EvalError::InliningTooDeep`].
pub fn part_eval_procedure<A: Fn(FloatOp) -> u64>(
    p: Procedure,
    env: &mut ValueEnv,
    map: Option<&ProcMap>,
    is_main: bool,
    a: &A,
) -> (r: Procedure)
    requires
        old(env).wf(),
        procs_wf(map),
        arith_ok(a),
        spec_pe_procedure(a, pe_cfg(procs_model(map)), p@, old(env)@, is_main) is Ok,
    ensures
        final(env).wf(),
        spec_pe_procedure(a, pe_cfg(procs_model(map)), p@, old(env)@, is_main) == Ok::<
            (ProcedureV, EnvV),
            EvalError,
        >((r@, final(env)@)),
{
    try_part_eval_procedure(p, env, map, is_main, a).unwrap()
}

/// Partially evaluates a program; see [`spec_pe_program`].
/// Calls are inlined at most [`MAX_INLINE`] deep; deeper inlining gives
/// [`EvalError::InliningTooDeep`].
pub fn part_eval_program<A: Fn(FloatOp) -> u64>(p: Program, env: ValueEnv, a: &A) -> (r: Program)
    requires
        env.wf(),
        arith_ok(a),
        spec_pe_program(a, p@, env@) is Ok,
    ensures
        spec_pe_program(a, p@, env@) == Ok::<ProgramV, EvalError>(r@),
{
    try_part_eval_program(p, env, a).unwrap()
}

} // verus!

verus! {

// ---------------------------------------------------------------------------
// Laws
// ---------------------------------------------------------------------------

/// A constant node evaluates to the scalar it was made from.
pub proof fn lemma_const_node_value<A: Fn(FloatOp) -> u64>(a: &A, v: Scalar, m: EnvV)
    ensures
        spec_interp_exp(a, spec_make_const_node(v), m) == Ok::<Option<Scalar>, EvalError>(Some(v)),
{
    reveal_strlit("true");
    reveal_strlit("false");
    reveal_strlit("pi");
    match v {
        Scalar::Cbit(b) => {
            assert("true"@.len() == 4 && "false"@.len() == 5 && "pi"@.len() == 2);
        },
        _ => {},
    }
}

/// Partial evaluation keeps the value of an expression: where it succeeds,
/// the result evaluates in the same environment exactly as the expression
/// does (to the same value, the same unknown, or the same error).
pub proof fn lemma_pe_exp_keeps_value<A: Fn(FloatOp) -> u64>(a: &A, e: ExpV, m: EnvV)
    ensures
        spec_pe_exp(a, e, m) matches Ok(e2) ==> spec_interp_exp(a, e2, m) == spec_interp_exp(a, e, m),
    decreases e,
{
    match e {
        ExpV::Lval(l) => {
            lemma_pe_lval_keeps_value(a, l, m);
            if let Ok(l2) = spec_pe_lval(a, l, m) {
                if let Ok(Some(v)) = spec_interp_lval(a, l2, m) {
                    lemma_const_node_value(a, v, m);
                }
            }
        },
        ExpV::Unary(op, e1) => {
            lemma_pe_exp_keeps_value(a, *e1, m);
            if let Ok(x1) = spec_pe_exp(a, *e1, m) {
                if let Ok(Some(v)) = spec_interp_exp(a, x1, m) {
                    if let Ok(w) = spec_eval_unop(op, v) {
                        lemma_const_node_value(a, w, m);
                    }
                }
            }
        },
        ExpV::Binary(e1, op, e2) => {
            lemma_pe_exp_keeps_value(a, *e1, m);
            lemma_pe_exp_keeps_value(a, *e2, m);
            if let (Ok(x1), Ok(x2)) = (spec_pe_exp(a, *e1, m), spec_pe_exp(a, *e2, m)) {
                if let (Ok(Some(v1)), Ok(Some(v2))) = (spec_interp_exp(a, x1, m), spec_interp_exp(a, x2, m)) {
                    if let Ok(w) = spec_eval_binop(a, op, v1, v2) {
                        lemma_const_node_value(a, w, m);
                    }
                }
            }
        },
        ExpV::Builtin1(f, e1) => {
            lemma_pe_exp_keeps_value(a, *e1, m);
            if let Ok(x1) = spec_pe_exp(a, *e1, m) {
                if let Ok(Some(v)) = spec_interp_exp(a, x1, m) {
                    if let Ok(w) = spec_eval_fun_1(a, f, v) {
                        lemma_const_node_value(a, w, m);
                    }
                }
            }
        },
        ExpV::Builtin2(f, e1, e2) => {
            lemma_pe_exp_keeps_value(a, *e1, m);
            lemma_pe_exp_keeps_value(a, *e2, m);
            if let (Ok(x1), Ok(x2)) = (spec_pe_exp(a, *e1, m), spec_pe_exp(a, *e2, m)) {
                if let (Ok(Some(v1)), Ok(Some(v2))) = (spec_interp_exp(a, x1, m), spec_interp_exp(a, x2, m)) {
                    if let Ok(w) = spec_eval_fun_2(a, f, v1, v2) {
                        lemma_const_node_value(a, w, m);
                    }
                }
            }
        },
        _ => {},
    }
}

/// Partial evaluation keeps the value of a location.
pub proof fn lemma_pe_lval_keeps_value<A: Fn(FloatOp) -> u64>(a: &A, l: LvalV, m: EnvV)
    ensures
        spec_pe_lval(a, l, m) matches Ok(l2) ==> spec_interp_lval(a, l2, m) == spec_interp_lval(a, l, m),
    decreases l,
{
    match l {
        LvalV::Array(n, idx) => {
            lemma_pe_exp_keeps_value(a, *idx, m);
        },
        _ => {},
    }
}

} // verus!

verus! {

/// An expression whose evaluation gives a value is partially evaluated
/// without error.
proof fn lemma_pe_exp_succeeds<A: Fn(FloatOp) -> u64>(a: &A, e: ExpV, m: EnvV)
    requires
        spec_interp_exp(a, e, m) matches Ok(Some(_)),
    ensures
        spec_pe_exp(a, e, m) is Ok,
    decreases e,
{
    match e {
        ExpV::Lval(l) => {
            lemma_pe_lval_succeeds(a, l, m);
            lemma_pe_lval_keeps_value(a, l, m);
        },
        ExpV::Unary(op, e1) => {
            lemma_pe_exp_succeeds(a, *e1, m);
            lemma_pe_exp_keeps_value(a, *e1, m);
        },
        ExpV::Binary(e1, op, e2) => {
            lemma_pe_exp_succeeds(a, *e1, m);
            lemma_pe_exp_keeps_value(a, *e1, m);
            lemma_pe_exp_succeeds(a, *e2, m);
            lemma_pe_exp_keeps_value(a, *e2, m);
        },
        ExpV::Builtin1(f, e1) => {
            lemma_pe_exp_succeeds(a, *e1, m);
            lemma_pe_exp_keeps_value(a, *e1, m);
        },
        ExpV::Builtin2(f, e1, e2) => {
            lemma_pe_exp_succeeds(a, *e1, m);
            lemma_pe_exp_keeps_value(a, *e1, m);
            lemma_pe_exp_succeeds(a, *e2, m);
            lemma_pe_exp_keeps_value(a, *e2, m);
        },
        _ => {},
    }
}

/// A location whose evaluation gives a value is partially evaluated
/// without error.
proof fn lemma_pe_lval_succeeds<A: Fn(FloatOp) -> u64>(a: &A, l: LvalV, m: EnvV)
    requires
        spec_interp_lval(a, l, m) matches Ok(Some(_)),
    ensures
        spec_pe_lval(a, l, m) is Ok,
    decreases l,
{
    match l {
        LvalV::Array(n, idx) => {
            lemma_pe_exp_succeeds(a, *idx, m);
        },
        _ => {},
    }
}

/// Partial evaluation never changes the value of an expression that can be
/// evaluated: it succeeds, and its result evaluates to the same value.
pub proof fn lemma_pe_exp_keeps_known_value<A: Fn(FloatOp) -> u64>(a: &A, e: ExpV, m: EnvV, v: Scalar)
    requires
        spec_interp_exp(a, e, m) == Ok::<Option<Scalar>, EvalError>(Some(v)),
    ensures
        spec_pe_exp(a, e, m) matches Ok(e2) && spec_interp_exp(a, e2, m) == Ok::<Option<Scalar>, EvalError>(
            Some(v),
        ),
{
    lemma_pe_exp_succeeds(a, e, m);
    lemma_pe_exp_keeps_value(a, e, m);
}

/// Partial evaluation of its own result changes nothing: every part that
/// can be folded in the environment already has been.
pub proof fn lemma_pe_exp_idempotent<A: Fn(FloatOp) -> u64>(a: &A, e: ExpV, m: EnvV)
    ensures
        spec_pe_exp(a, e, m) matches Ok(e2) ==> spec_pe_exp(a, e2, m) == Ok::<ExpV, EvalError>(e2),
    decreases e,
{
    match e {
        ExpV::Lval(l) => {
            lemma_pe_lval_idempotent(a, l, m);
        },
        ExpV::Unary(op, e1) => {
            lemma_pe_exp_idempotent(a, *e1, m);
        },
        ExpV::Binary(e1, op, e2) => {
            lemma_pe_exp_idempotent(a, *e1, m);
            lemma_pe_exp_idempotent(a, *e2, m);
        },
        ExpV::Builtin1(f, e1) => {
            lemma_pe_exp_idempotent(a, *e1, m);
        },
        ExpV::Builtin2(f, e1, e2) => {
            lemma_pe_exp_idempotent(a, *e1, m);
            lemma_pe_exp_idempotent(a, *e2, m);
        },
        _ => {},
    }
}

/// Partial evaluation of a location's own result changes nothing.
pub proof fn lemma_pe_lval_idempotent<A: Fn(FloatOp) -> u64>(a: &A, l: LvalV, m: EnvV)
    ensures
        spec_pe_lval(a, l, m) matches Ok(l2) ==> spec_pe_lval(a, l2, m) == Ok::<LvalV, EvalError>(l2),
    decreases l,
{
    match l {
        LvalV::Array(n, idx) => {
            lemma_pe_exp_idempotent(a, *idx, m);
        },
        _ => {},
    }
}

} // verus!

verus! {

// ---------------------------------------------------------------------------
// Partial evaluation in stages
// ---------------------------------------------------------------------------

/// Whether `m2` knows at least what `m` knows: every name with a value in
/// `m` has the same value in `m2`.
pub open spec fn knows_at_least(m2: EnvV, m: EnvV) -> bool {
    forall|n: Seq<char>| #[trigger] lookup(m, n) is Some ==> lookup(m2, n) == lookup(m, n)
}

/// A value found with less knowledge is found with more.
proof fn lemma_interp_more_known<A: Fn(FloatOp) -> u64>(a: &A, e: ExpV, m: EnvV, m2: EnvV)
    requires
        knows_at_least(m2, m),
    ensures
        spec_interp_exp(a, e, m) matches Ok(Some(v)) ==> spec_interp_exp(a, e, m2) == Ok::<
            Option<Scalar>,
            EvalError,
        >(Some(v)),
    decreases e,
{
    match e {
        ExpV::Lval(l) => lemma_interp_lval_more_known(a, l, m, m2),
        ExpV::Unary(_, e1) => lemma_interp_more_known(a, *e1, m, m2),
        ExpV::Binary(e1, _, e2) => {
            lemma_interp_more_known(a, *e1, m, m2);
            lemma_interp_more_known(a, *e2, m, m2);
        },
        ExpV::Builtin1(_, e1) => lemma_interp_more_known(a, *e1, m, m2),
        ExpV::Builtin2(_, e1, e2) => {
            lemma_interp_more_known(a, *e1, m, m2);
            lemma_interp_more_known(a, *e2, m, m2);
        },
        _ => {},
    }
}

proof fn lemma_interp_lval_more_known<A: Fn(FloatOp) -> u64>(a: &A, l: LvalV, m: EnvV, m2: EnvV)
    requires
        knows_at_least(m2, m),
    ensures
        spec_interp_lval(a, l, m) matches Ok(Some(v)) ==> spec_interp_lval(a, l, m2) == Ok::<
            Option<Scalar>,
            EvalError,
        >(Some(v)),
    decreases l,
{
    match l {
        LvalV::Var(n) => {
            assert(lookup(m, n) is Some ==> lookup(m2, n) == lookup(m, n));
        },
        LvalV::Array(n, idx) => {
            lemma_interp_more_known(a, *idx, m, m2);
            assert(lookup(m, n) is Some ==> lookup(m2, n) == lookup(m, n));
        },
    }
}

/// A constant's value does not depend on the environment.
proof fn lemma_const_value_env_free<A: Fn(FloatOp) -> u64>(a: &A, x: ExpV, m: EnvV, m2: EnvV)
    requires
        spec_is_const_node(x),
    ensures
        spec_interp_exp(a, x, m) == spec_interp_exp(a, x, m2),
        spec_pe_exp(a, x, m2) == Ok::<ExpV, EvalError>(x),
{
}

/// Partial evaluation in stages: partially evaluating an expression with
/// what `m` knows, and the result again with what `m2` knows, gives what
/// partial evaluation with `m2` gives at once, where `m2` knows at least
/// what `m` knows.
pub proof fn lemma_pe_exp_in_stages<A: Fn(FloatOp) -> u64>(a: &A, e: ExpV, m: EnvV, m2: EnvV)
    requires
        knows_at_least(m2, m),
    ensures
        spec_pe_exp(a, e, m) matches Ok(x) ==> spec_pe_exp(a, x, m2) == spec_pe_exp(a, e, m2),
    decreases e,
{
    match e {
        ExpV::Lval(l) => {
            lemma_pe_lval_in_stages(a, l, m, m2);
            lemma_pe_lval_keeps_value(a, l, m);
            if let Ok(l2) = spec_pe_lval(a, l, m) {
                if let Ok(Some(v)) = spec_interp_lval(a, l2, m) {
                    lemma_interp_lval_more_known(a, l, m, m2);
                    lemma_pe_lval_succeeds(a, l, m2);
                    lemma_pe_lval_keeps_value(a, l, m2);
                    lemma_const_value_env_free(a, spec_make_const_node(v), m, m2);
                }
            }
        },
        ExpV::Unary(op, e1) => {
            lemma_pe_exp_in_stages(a, *e1, m, m2);
            if let Ok(x1) = spec_pe_exp(a, *e1, m) {
                if spec_is_const_node(x1) {
                    lemma_const_value_env_free(a, x1, m, m2);
                    if let Ok(x) = spec_pe_exp(a, e, m) {
                        lemma_const_value_env_free(a, x, m, m2);
                    }
                }
            }
        },
        ExpV::Binary(e1, op, e2) => {
            lemma_pe_exp_in_stages(a, *e1, m, m2);
            lemma_pe_exp_in_stages(a, *e2, m, m2);
            if let (Ok(x1), Ok(x2)) = (spec_pe_exp(a, *e1, m), spec_pe_exp(a, *e2, m)) {
                if spec_is_const_node(x1) {
                    lemma_const_value_env_free(a, x1, m, m2);
                }
                if spec_is_const_node(x2) {
                    lemma_const_value_env_free(a, x2, m, m2);
                }
                if spec_is_const_node(x1) && spec_is_const_node(x2) {
                    if let Ok(x) = spec_pe_exp(a, e, m) {
                        lemma_const_value_env_free(a, x, m, m2);
                    }
                }
            }
        },
        ExpV::Builtin1(f, e1) => {
            lemma_pe_exp_in_stages(a, *e1, m, m2);
            if let Ok(x1) = spec_pe_exp(a, *e1, m) {
                if spec_is_const_node(x1) {
                    lemma_const_value_env_free(a, x1, m, m2);
                    if let Ok(x) = spec_pe_exp(a, e, m) {
                        lemma_const_value_env_free(a, x, m, m2);
                    }
                }
            }
        },
        ExpV::Builtin2(f, e1, e2) => {
            lemma_pe_exp_in_stages(a, *e1, m, m2);
            lemma_pe_exp_in_stages(a, *e2, m, m2);
            if let (Ok(x1), Ok(x2)) = (spec_pe_exp(a, *e1, m), spec_pe_exp(a, *e2, m)) {
                if spec_is_const_node(x1) {
                    lemma_const_value_env_free(a, x1, m, m2);
                }
                if spec_is_const_node(x2) {
                    lemma_const_value_env_free(a, x2, m, m2);
                }
                if spec_is_const_node(x1) && spec_is_const_node(x2) {
                    if let Ok(x) = spec_pe_exp(a, e, m) {
                        lemma_const_value_env_free(a, x, m, m2);
                    }
                }
            }
        },
        _ => {},
    }
}

/// Partial evaluation of a location in stages.
pub proof fn lemma_pe_lval_in_stages<A: Fn(FloatOp) -> u64>(a: &A, l: LvalV, m: EnvV, m2: EnvV)
    requires
        knows_at_least(m2, m),
    ensures
        spec_pe_lval(a, l, m) matches Ok(x) ==> spec_pe_lval(a, x, m2) == spec_pe_lval(a, l, m2),
    decreases l,
{
    match l {
        LvalV::Array(n, idx) => {
            lemma_pe_exp_in_stages(a, *idx, m, m2);
        },
        _ => {},
    }
}

} // verus!

verus! {

proof fn lemma_pe_gate_in_stages<A: Fn(FloatOp) -> u64>(a: &A, g: GateV, m: EnvV, m2: EnvV)
    requires
        knows_at_least(m2, m),
    ensures
        spec_pe_gate(a, g, m) matches Ok(x) ==> spec_pe_gate(a, x, m2) == spec_pe_gate(a, g, m2),
{
    match g {
        GateV::Rx(e) | GateV::Ry(e) | GateV::Rz(e) | GateV::P(e) => lemma_pe_exp_in_stages(a, e, m, m2),
        _ => {},
    }
}

proof fn lemma_pe_qupdate_in_stages<A: Fn(FloatOp) -> u64>(a: &A, q: QUpdateV, m: EnvV, m2: EnvV)
    requires
        knows_at_least(m2, m),
    ensures
        spec_pe_qupdate(a, q, m) matches Ok(x) ==> spec_pe_qupdate(a, x, m2) == spec_pe_qupdate(a, q, m2),
{
    match q {
        QUpdateV::Gate(g, l) => {
            lemma_pe_gate_in_stages(a, g, m, m2);
            lemma_pe_lval_in_stages(a, l, m, m2);
        },
        QUpdateV::Swap(x, y) => {
            lemma_pe_lval_in_stages(a, x, m, m2);
            lemma_pe_lval_in_stages(a, y, m, m2);
        },
    }
}

/// Whether a statement only acts on qubits: gate updates, conditional
/// updates, measurements, and choices between such statements.
pub open spec fn quantum_stmt(s: StatementV) -> bool
    decreases s,
{
    match s {
        StatementV::QUpdate(_) | StatementV::ConditionalQUpdate(_, _) | StatementV::Measure(_, _) => true,
        StatementV::If(_, t, f) => quantum_stmt(*t) && quantum_stmt(*f),
        _ => false,
    }
}

/// Partial evaluation of a quantum statement leaves the environment alone
/// and gives a quantum statement.
proof fn lemma_quantum_stmt_keeps_env<A: Fn(FloatOp) -> u64>(a: &A, cfg: PeCfg, fuel: nat, s: StatementV, m: EnvV)
    requires
        quantum_stmt(s),
    ensures
        spec_pe_stmt(a, cfg, fuel, s, m) matches Ok((s1, m1)) ==> m1 == m && quantum_stmt(s1),
    decreases s,
{
    reveal(spec_pe_stmt);
    match s {
        StatementV::If(e, t, f) => {
            lemma_quantum_stmt_keeps_env(a, cfg, fuel, *t, m);
            lemma_quantum_stmt_keeps_env(a, cfg, fuel, *f, m);
        },
        _ => {},
    }
}

/// Partial evaluation of a quantum statement in stages: partially
/// evaluating it with what `m` knows, and the result again with what `m2`
/// knows, gives what partial evaluation with `m2` gives at once, where `m2`
/// knows at least what `m` knows. In particular a choice whose condition is
/// not yet known keeps each branch in its place, so that once the condition
/// is known the branch it selects is the one the program selects.
pub proof fn lemma_pe_quantum_stmt_in_stages<A: Fn(FloatOp) -> u64>(
    a: &A,
    cfg: PeCfg,
    fuel: nat,
    s: StatementV,
    m: EnvV,
    m2: EnvV,
)
    requires
        quantum_stmt(s),
        knows_at_least(m2, m),
    ensures
        spec_pe_stmt(a, cfg, fuel, s, m) matches Ok((s1, m1)) ==> m1 == m && spec_pe_stmt(a, cfg, fuel, s1, m2)
            == spec_pe_stmt(a, cfg, fuel, s, m2),
    decreases s,
{
    lemma_quantum_stmt_keeps_env(a, cfg, fuel, s, m);
    reveal(spec_pe_stmt);
    match s {
        StatementV::QUpdate(q) => {
            lemma_pe_qupdate_in_stages(a, q, m, m2);
        },
        StatementV::ConditionalQUpdate(q, c) => {
            lemma_pe_qupdate_in_stages(a, q, m, m2);
            lemma_pe_lval_in_stages(a, c, m, m2);
        },
        StatementV::Measure(q, c) => {
            lemma_pe_lval_in_stages(a, q, m, m2);
            lemma_pe_lval_in_stages(a, c, m, m2);
        },
        StatementV::If(e, t, f) => {
            lemma_pe_exp_in_stages(a, e, m, m2);
            lemma_pe_quantum_stmt_in_stages(a, cfg, fuel, *t, m, m2);
            lemma_pe_quantum_stmt_in_stages(a, cfg, fuel, *f, m, m2);
            lemma_quantum_stmt_keeps_env(a, cfg, fuel, *t, m2);
            lemma_quantum_stmt_keeps_env(a, cfg, fuel, *f, m2);
            if let Ok(c) = spec_pe_exp(a, e, m) {
                if spec_is_const_node(c) {
                    lemma_const_value_env_free(a, c, m, m2);
                } else {
                    if let (Ok((t2, mt)), Ok((f2, mf))) = (
                        spec_pe_stmt(a, cfg, fuel, *t, m),
                        spec_pe_stmt(a, cfg, fuel, *f, m),
                    ) {
                        lemma_quantum_stmt_keeps_env(a, cfg, fuel, t2, m2);
                        lemma_quantum_stmt_keeps_env(a, cfg, fuel, f2, m2);
                    }
                }
            }
        },
        _ => {},
    }
}

} // verus!
