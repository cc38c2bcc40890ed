//! Reduction: the partial evaluation used for whole programs, with a few
//! different choices (see [`PeCfg`]): procedures are inlined from a table
//! that grows as they are reduced, a call of an unknown procedure is kept,
//! nested blocks are merged unless they redeclare a name gathered so far,
//! assignments to unused names are dropped, and loops are unrolled at most
//! [`MAX_UNROLL`] times.
use vstd::prelude::*;
use crate::ast::{
    Declaration,
    DeclarationV,
    Exp,
    ExpV,
    Gate,
    GateV,
    Lval,
    LvalV,
    Procedure,
    ProcedureV,
    Program,
    ProgramV,
    QUpdate,
    QUpdateV,
    Statement,
    StatementV,
    copy_procedure,
    procs_view,
};
use crate::env::{Env, declare};
use crate::interpret::{EnvV, ValueEnv};
use crate::part_eval::{
    MAX_INLINE,
    PeCfg,
    ProcMap,
    try_part_eval_declaration,
    try_part_eval_exp,
    try_part_eval_gate,
    try_part_eval_lval,
    try_part_eval_qupdate,
    pe_stmt,
    proc_out,
    rv,
    spec_pe_decl,
    spec_pe_exp,
    spec_pe_gate,
    spec_pe_lval,
    spec_pe_procedure,
    spec_pe_qupdate,
    spec_pe_stmt,
    stmt_out,
};
use crate::value::{EvalError, FloatOp, arith_ok};

verus! {

/// How many times reduction unrolls a loop with a known condition.
pub const MAX_UNROLL: usize = 5;

/// The configuration of reduction with the procedure table `table`.
pub open spec fn red_cfg(table: Map<Seq<char>, Option<ProcedureV>>) -> PeCfg {
    PeCfg { procs: Some(seq![table]), reduce: true, limit: MAX_UNROLL as nat }
}

/// One pass over the procedures: each is reduced from the environment `m`
/// with the table as it stands, and then enters the table as it was before
/// its reduction (replacing one of the same name).
pub open spec fn spec_reduce_pass<A: Fn(FloatOp) -> u64>(
    a: &A,
    ps: Seq<ProcedureV>,
    m: EnvV,
    table: Map<Seq<char>, Option<ProcedureV>>,
) -> Result<(Seq<ProcedureV>, Map<Seq<char>, Option<ProcedureV>>), EvalError>
    decreases ps.len(),
{
    if ps.len() == 0 {
        Ok((Seq::empty(), table))
    } else {
        match spec_reduce_pass(a, ps.drop_last(), m, table) {
            Err(x) => Err(x),
            Ok((qs, t1)) => match spec_pe_procedure(a, red_cfg(t1), ps.last(), m, true) {
                Err(x) => Err(x),
                Ok((q, _)) => Ok((qs.push(q), t1.insert(ps.last().name, Some(ps.last())))),
            },
        }
    }
}

/// Reduction of a program: two passes over its procedures, the second with
/// the table the first one left; the result holds the first procedure.
pub open spec fn spec_reduce_program<A: Fn(FloatOp) -> u64>(a: &A, p: ProgramV, m: EnvV) -> Result<
    ProgramV,
    EvalError,
> {
    if p.procedures.len() == 0 {
        Err(EvalError::NoProcedures)
    } else {
        match spec_reduce_pass(a, p.procedures, m, Map::empty()) {
            Err(x) => Err(x),
            Ok((qs1, t1)) => match spec_reduce_pass(a, qs1, m, t1) {
                Err(x) => Err(x),
                Ok((qs2, _)) => Ok(ProgramV { procedures: seq![qs2[0]] }),
            },
        }
    }
}

/// A pass keeps the number of procedures.
pub proof fn lemma_reduce_pass_len<A: Fn(FloatOp) -> u64>(
    a: &A,
    ps: Seq<ProcedureV>,
    m: EnvV,
    table: Map<Seq<char>, Option<ProcedureV>>,
)
    ensures
        spec_reduce_pass(a, ps, m, table) matches Ok((qs, _)) ==> qs.len() == ps.len(),
    decreases ps.len(),
{
    if ps.len() > 0 {
        lemma_reduce_pass_len(a, ps.drop_last(), m, table);
    }
}

proof fn lemma_reduce_pass_prefix_err<A: Fn(FloatOp) -> u64>(
    a: &A,
    ps: Seq<ProcedureV>,
    m: EnvV,
    table: Map<Seq<char>, Option<ProcedureV>>,
    n: int,
    x: EvalError,
)
    requires
        0 <= n <= ps.len(),
        spec_reduce_pass(a, ps.take(n), m, table) == Err::<
            (Seq<ProcedureV>, Map<Seq<char>, Option<ProcedureV>>),
            EvalError,
        >(x),
    ensures
        spec_reduce_pass(a, ps, m, table) == Err::<
            (Seq<ProcedureV>, Map<Seq<char>, Option<ProcedureV>>),
            EvalError,
        >(x),
    decreases ps.len() - n,
{
    if n < ps.len() {
        assert(ps.take(n + 1).drop_last() =~= ps.take(n));
        lemma_reduce_pass_prefix_err(a, ps, m, table, n + 1, x);
    } else {
        assert(ps.take(n) =~= ps);
    }
}

/// Reduces an expression; reduction of expressions is partial evaluation.
pub fn try_reduce_exp<A: Fn(FloatOp) -> u64>(exp: Exp, value_env: &ValueEnv, a: &A) -> (r: Result<
    Exp,
    EvalError,
>)
    requires
        value_env.wf(),
        arith_ok(a),
    ensures
        rv(r) == spec_pe_exp(a, exp@, value_env@),
{
    try_part_eval_exp(exp, value_env, a)
}

/// Reduces the index of a location.
pub fn try_reduce_lval<A: Fn(FloatOp) -> u64>(l: Lval, value_env: &ValueEnv, a: &A) -> (r: Result<
    Lval,
    EvalError,
>)
    requires
        value_env.wf(),
        arith_ok(a),
    ensures
        rv(r) == spec_pe_lval(a, l@, value_env@),
{
    try_part_eval_lval(l, value_env, a)
}

/// Reduces the angle of a gate.
pub fn try_reduce_gate<A: Fn(FloatOp) -> u64>(g: Gate, value_env: &ValueEnv, a: &A) -> (r: Result<
    Gate,
    EvalError,
>)
    requires
        value_env.wf(),
        arith_ok(a),
    ensures
        rv(r) == spec_pe_gate(a, g@, value_env@),
{
    try_part_eval_gate(g, value_env, a)
}

/// Reduces a quantum update.
pub fn try_reduce_qupdate<A: Fn(FloatOp) -> u64>(q: QUpdate, value_env: &ValueEnv, a: &A) -> (r: Result<
    QUpdate,
    EvalError,
>)
    requires
        value_env.wf(),
        arith_ok(a),
    ensures
        rv(r) == spec_pe_qupdate(a, q@, value_env@),
{
    try_part_eval_qupdate(q, value_env, a)
}

/// Reduces a declaration and records what it declares.
pub fn try_reduce_declaration<A: Fn(FloatOp) -> u64>(
    d: Declaration,
    value_env: &mut ValueEnv,
    a: &A,
) -> (r: Result<Declaration, EvalError>)
    requires
        old(value_env).wf(),
        arith_ok(a),
    ensures
        final(value_env).wf(),
        match r {
            Ok(d2) => spec_pe_decl(a, d@, old(value_env)@) == Ok::<(DeclarationV, EnvV), EvalError>(
                (d2@, final(value_env)@),
            ),
            Err(x) => spec_pe_decl(a, d@, old(value_env)@) == Err::<(DeclarationV, EnvV), EvalError>(
                x,
            ),
        },
{
    try_part_eval_declaration(d, value_env, a)
}

/// Reduces a statement, inlining the procedures of `fun_env`; see
/// [`spec_pe_stmt`] with [`red_cfg`].
/// Calls are inlined at most [`MAX_INLINE`] deep; deeper inlining gives
/// [`EvalError::InliningTooDeep`].
pub fn try_reduce_statement<A: Fn(FloatOp) -> u64>(
    s: Statement,
    val_env: &mut ValueEnv,
    fun_env: &ProcMap,
    a: &A,
) -> (r: Result<Statement, EvalError>)
    requires
        old(val_env).wf(),
        fun_env.wf(),
        arith_ok(a),
    ensures
        final(val_env).wf(),
        spec_pe_stmt(
            a,
            PeCfg { procs: Some(fun_env@), reduce: true, limit: MAX_UNROLL as nat },
            MAX_INLINE as nat,
            s@,
            old(val_env)@,
        ) == stmt_out(r, final(val_env)@),
{
    pe_stmt(s, val_env, Some(fun_env), true, MAX_UNROLL, MAX_INLINE, a)
}

/// Reduces a procedure's body with the procedures of `fun_env`, then enters
/// the procedure as it was given into `fun_env`.
/// Calls are inlined at most [`MAX_INLINE`] deep; deeper inlining gives
/// [`EvalError::InliningTooDeep`].
pub fn try_reduce_procedure<A: Fn(FloatOp) -> u64>(
    p: Procedure,
    val_env: &mut ValueEnv,
    fun_env: &mut ProcMap,
    a: &A,
) -> (r: Result<Procedure, EvalError>)
    requires
        old(val_env).wf(),
        old(fun_env).wf(),
        arith_ok(a),
    ensures
        final(val_env).wf(),
        final(fun_env).wf(),
        spec_pe_procedure(
            a,
            PeCfg { procs: Some(old(fun_env)@), reduce: true, limit: MAX_UNROLL as nat },
            p@,
            old(val_env)@,
            true,
        ) == proc_out(r, final(val_env)@),
        r is Ok ==> final(fun_env)@ == declare(old(fun_env)@, p@.name, Some(p@)),
{
    let orig = copy_procedure(&p);
    let body = match pe_stmt(p.body, val_env, Some(&*fun_env), true, MAX_UNROLL, MAX_INLINE, a) {
        Ok(b) => b,
        Err(x) => return Err(x),
    };
    fun_env.insert(orig.name.clone(), orig);
    Ok(Procedure { name: p.name, params: p.params, body })
}

/// One pass of [`try_reduce_program`]; see [`spec_reduce_pass`].
fn reduce_pass<A: Fn(FloatOp) -> u64>(
    ps: &Vec<Procedure>,
    val_env: &ValueEnv,
    fun_env: &mut ProcMap,
    a: &A,
    Ghost(table): Ghost<Map<Seq<char>, Option<ProcedureV>>>,
) -> (r: Result<Vec<Procedure>, EvalError>)
    requires
        val_env.wf(),
        old(fun_env).wf(),
        arith_ok(a),
        old(fun_env)@ == seq![table],
    ensures
        final(fun_env).wf(),
        match r {
            Ok(qs) => spec_reduce_pass(a, procs_view(ps@), val_env@, table) matches Ok((qv, t))
                && qv == procs_view(qs@) && final(fun_env)@ == seq![t],
            Err(x) => spec_reduce_pass(a, procs_view(ps@), val_env@, table) == Err::<
                (Seq<ProcedureV>, Map<Seq<char>, Option<ProcedureV>>),
                EvalError,
            >(x),
        },
{
    let ghost pv = procs_view(ps@);
    let ghost m = val_env@;
    let ghost mut t: Map<Seq<char>, Option<ProcedureV>> = table;
    let mut out: Vec<Procedure> = Vec::new();
    assert(pv.take(0) =~= Seq::<ProcedureV>::empty());
    assert(procs_view(out@) =~= Seq::<ProcedureV>::empty());
    for k in 0..ps.len()
        invariant
            val_env.wf(),
            fun_env.wf(),
            arith_ok(a),
            val_env@ == m,
            pv == procs_view(ps@),
            fun_env@ == seq![t],
            spec_reduce_pass(a, pv.take(k as int), m, table) == Ok::<
                (Seq<ProcedureV>, Map<Seq<char>, Option<ProcedureV>>),
                EvalError,
            >((procs_view(out@), t)),
    {
        assert(pv.take(k + 1).drop_last() =~= pv.take(k as int));
        assert(pv.take(k + 1).last() == ps@[k as int]@);
        let mut e = val_env.deep_copy();
        let ghost o0 = out@;
        let ghost t0 = t;
        match try_reduce_procedure(copy_procedure(&ps[k]), &mut e, fun_env, a) {
            Ok(q) => {
                out.push(q);
                proof {
                    t = t.insert(ps@[k as int]@.name, Some(ps@[k as int]@));
                }
                assert(procs_view(out@) =~= procs_view(o0).push(out@.last()@));
                assert(fun_env@ =~= seq![t]);
            },
            Err(x) => {
                proof {
                    lemma_reduce_pass_prefix_err(a, pv, m, table, k + 1, x);
                }
                return Err(x);
            },
        }
    }
    assert(pv.take(ps.len() as int) =~= pv);
    Ok(out)
}

/// Reduces a program: two passes over its procedures, then the first
/// procedure alone; see [`spec_reduce_program`]. A program without
/// procedures is refused.
/// Calls are inlined at most [`MAX_INLINE`] deep; deeper inlining gives
/// [`EvalError::InliningTooDeep`].
pub fn try_reduce_program<A: Fn(FloatOp) -> u64>(p: Program, val_env: ValueEnv, a: &A) -> (r: Result<
    Program,
    EvalError,
>)
    requires
        val_env.wf(),
        arith_ok(a),
    ensures
        rv(r) == spec_reduce_program(a, p@, val_env@),
{
    if p.procedures.len() == 0 {
        return Err(EvalError::NoProcedures);
    }
    let mut fun_env: ProcMap = Env::new();
    let ghost t0 = Map::<Seq<char>, Option<ProcedureV>>::empty();
    assert(fun_env@ =~= seq![t0]);
    let procs1 = match reduce_pass(&p.procedures, &val_env, &mut fun_env, a, Ghost(t0)) {
        Ok(x) => x,
        Err(x) => return Err(x),
    };
    let ghost t1 = match spec_reduce_pass(a, p@.procedures, val_env@, t0) {
        Ok((_, t)) => t,
        Err(_) => t0,
    };
    let procs2 = match reduce_pass(&procs1, &val_env, &mut fun_env, a, Ghost(t1)) {
        Ok(x) => x,
        Err(x) => return Err(x),
    };
    proof {
        lemma_reduce_pass_len(a, p@.procedures, val_env@, t0);
        lemma_reduce_pass_len(a, procs_view(procs1@), val_env@, t1);
    }
    let main = copy_procedure(&procs2[0]);
    let ghost mv = main@;
    let out = Program { procedures: vec![main] };
    assert(out@.procedures =~= seq![mv]);
    Ok(out)
}

} // verus!

verus! {

// ---------------------------------------------------------------------------
// Reduction of input on which it succeeds
// ---------------------------------------------------------------------------
//
// As with partial evaluation, reducing a program that cannot be evaluated is
// a fatal error: the functions below take only input on which reduction
// succeeds, and the `try_` functions take any input.

/// Reduces an expression; see [`spec_pe_exp`].
pub fn reduce_exp<A: Fn(FloatOp) -> u64>(exp: Exp, value_env: &ValueEnv, a: &A) -> (r: Exp)
    requires
        value_env.wf(),
        arith_ok(a),
        spec_pe_exp(a, exp@, value_env@) is Ok,
    ensures
        spec_pe_exp(a, exp@, value_env@) == Ok::<ExpV, EvalError>(r@),
{
    try_reduce_exp(exp, value_env, a).unwrap()
}

/// Reduces a location; see [`spec_pe_lval`].
pub fn reduce_lval<A: Fn(FloatOp) -> u64>(l: Lval, value_env: &ValueEnv, a: &A) -> (r: Lval)
    requires
        value_env.wf(),
        arith_ok(a),
        spec_pe_lval(a, l@, value_env@) is Ok,
    ensures
        spec_pe_lval(a, l@, value_env@) == Ok::<LvalV, EvalError>(r@),
{
    try_reduce_lval(l, value_env, a).unwrap()
}

/// Reduces a gate; see [`spec_pe_gate`].
pub fn reduce_gate<A: Fn(FloatOp) -> u64>(g: Gate, value_env: &ValueEnv, a: &A) -> (r: Gate)
    requires
        value_env.wf(),
        arith_ok(a),
        spec_pe_gate(a, g@, value_env@) is Ok,
    ensures
        spec_pe_gate(a, g@, value_env@) == Ok::<GateV, EvalError>(r@),
{
    try_reduce_gate(g, value_env, a).unwrap()
}

/// Reduces a quantum update; see [`spec_pe_qupdate`].
pub fn reduce_qupdate<A: Fn(FloatOp) -> u64>(q: QUpdate, value_env: &ValueEnv, a: &A) -> (r: QUpdate)
    requires
        value_env.wf(),
        arith_ok(a),
        spec_pe_qupdate(a, q@, value_env@) is Ok,
    ensures
        spec_pe_qupdate(a, q@, value_env@) == Ok::<QUpdateV, EvalError>(r@),
{
    try_reduce_qupdate(q, value_env, a).unwrap()
}

/// Reduces a declaration and enters it; see [`spec_pe_decl`].
pub fn reduce_declaration<A: Fn(FloatOp) -> u64>(
    d: Declaration,
    value_env: &mut ValueEnv,
    a: &A,
) -> (r: Declaration)
    requires
        old(value_env).wf(),
        arith_ok(a),
        spec_pe_decl(a, d@, old(value_env)@) is Ok,
    ensures
        final(value_env).wf(),
        spec_pe_decl(a, d@, old(value_env)@) == Ok::<(DeclarationV, EnvV), EvalError>(
            (r@, final(value_env)@),
        ),
{
    try_reduce_declaration(d, value_env, a).unwrap()
}

/// Reduces a statement; see [`spec_pe_stmt`].
/// Calls are inlined at most [`MAX_INLINE`] deep; deeper inlining gives
/// [`EvalError::InliningTooDeep`].
pub fn reduce_statement<A: Fn(FloatOp) -> u64>(
    s: Statement,
    val_env: &mut ValueEnv,
    fun_env: &ProcMap,
    a: &A,
) -> (r: Statement)
    requires
        old(val_env).wf(),
        fun_env.wf(),
        arith_ok(a),
        spec_pe_stmt(a, PeCfg { procs: Some(fun_env@), reduce: true, limit: MAX_UNROLL as nat }, MAX_INLINE as nat, s@, old(val_env)@) is Ok,
    ensures
        final(val_env).wf(),
        spec_pe_stmt(a, PeCfg { procs: Some(fun_env@), reduce: true, limit: MAX_UNROLL as nat }, MAX_INLINE as nat, s@, old(val_env)@) == Ok::<
            (StatementV, EnvV),
            EvalError,
        >((r@, final(val_env)@)),
{
    try_reduce_statement(s, val_env, fun_env, a).unwrap()
}

/// Reduces a procedure and enters it into the table of procedures; see
/// [`spec_pe_procedure`].
/// Calls are inlined at most [`MAX_INLINE`] deep; deeper inlining gives
/// [`EvalError::InliningTooDeep`].
pub fn reduce_procedure<A: Fn(FloatOp) -> u64>(
    p: Procedure,
    val_env: &mut ValueEnv,
    fun_env: &mut ProcMap,
    a: &A,
) -> (r: Procedure)
    requires
        old(val_env).wf(),
        old(fun_env).wf(),
        arith_ok(a),
        spec_pe_procedure(a, PeCfg { procs: Some(old(fun_env)@), reduce: true, limit: MAX_UNROLL as nat }, p@, old(val_env)@, true) is Ok,
    ensures
        final(val_env).wf(),
        final(fun_env).wf(),
        spec_pe_procedure(a, PeCfg { procs: Some(old(fun_env)@), reduce: true, limit: MAX_UNROLL as nat }, p@, old(val_env)@, true) == Ok::<
            (ProcedureV, EnvV),
            EvalError,
        >((r@, final(val_env)@)),
        final(fun_env)@ == declare(old(fun_env)@, p@.name, Some(p@)),
{
    try_reduce_procedure(p, val_env, fun_env, a).unwrap()
}

/// Reduces a program; see [`spec_reduce_program`].
/// Calls are inlined at most [`MAX_INLINE`] deep; deeper inlining gives
/// [`EvalError::InliningTooDeep`].
pub fn reduce_program<A: Fn(FloatOp) -> u64>(p: Program, val_env: ValueEnv, a: &A) -> (r: Program)
    requires
        val_env.wf(),
        arith_ok(a),
        spec_reduce_program(a, p@, val_env@) is Ok,
    ensures
        spec_reduce_program(a, p@, val_env@) == Ok::<ProgramV, EvalError>(r@),
{
    try_reduce_program(p, val_env, a).unwrap()
}

} // verus!
