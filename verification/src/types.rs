//! A type checker that reports the first problem it finds as a message.
//!
//! Scalar types are ordered `cbit <= int <= float`; a value may be used
//! where a type at least as large is expected.
use vstd::prelude::*;
use vstd::string::*;
use crate::ast::{
    Declaration,
    DeclarationV,
    Exp,
    ExpV,
    Lval,
    LvalV,
    ParamV,
    ParameterDeclaration,
    Procedure,
    ProcedureV,
    Program,
    QUpdate,
    QUpdateV,
    Statement,
    StatementV,
    Type,
    decls_view,
    exps_view,
    lemma_block_view,
    lval_name,
    lval_name_of,
    param_name,
    param_name_of,
    params_view,
    procs_view,
    stmts_view,
};
use crate::env::{DeepCopy, Env, declare, lookup};

verus! {

/// The types the checker gives to variables: scalars and arrays.
#[derive(Debug)]
pub enum CheckType {
    Int,
    Float,
    Cbit,
    Qbit,
    Array(Box<CheckType>),
}

impl View for CheckType {
    type V = CheckType;

    open spec fn view(&self) -> CheckType {
        *self
    }
}

impl DeepCopy for CheckType {
    fn deep_copy(&self) -> (r: Self)
        decreases self,
    {
        match self {
            CheckType::Int => CheckType::Int,
            CheckType::Float => CheckType::Float,
            CheckType::Cbit => CheckType::Cbit,
            CheckType::Qbit => CheckType::Qbit,
            CheckType::Array(t) => CheckType::Array(Box::new((**t).deep_copy())),
        }
    }
}

/// The types of the variables in scope.
pub type TypeEnv = Env<CheckType>;

pub type TypeEnvV = Seq<Map<Seq<char>, Option<CheckType>>>;

/// The checker's type of a scalar type.
pub open spec fn of_type(t: Type) -> CheckType {
    match t {
        Type::Int => CheckType::Int,
        Type::Float => CheckType::Float,
        Type::Cbit => CheckType::Cbit,
        Type::Qbit => CheckType::Qbit,
    }
}

fn check_type_of(t: Type) -> (r: CheckType)
    ensures
        r == of_type(t),
{
    match t {
        Type::Int => CheckType::Int,
        Type::Float => CheckType::Float,
        Type::Cbit => CheckType::Cbit,
        Type::Qbit => CheckType::Qbit,
    }
}

/// Whether a value of type `a` may be used where `b` is expected: the same
/// type, or a scalar widened along `cbit <= int <= float`.
pub open spec fn type_leq(a: CheckType, b: CheckType) -> bool {
    ||| a == b
    ||| a is Cbit && (b is Int || b is Float)
    ||| a is Int && b is Float
}

/// The larger of two comparable types.
pub open spec fn max_type(a: CheckType, b: CheckType) -> CheckType {
    if type_leq(a, b) {
        b
    } else {
        a
    }
}

fn same_type(a: &CheckType, b: &CheckType) -> (r: bool)
    ensures
        r == (*a == *b),
    decreases a,
{
    match (a, b) {
        (CheckType::Int, CheckType::Int) => true,
        (CheckType::Float, CheckType::Float) => true,
        (CheckType::Cbit, CheckType::Cbit) => true,
        (CheckType::Qbit, CheckType::Qbit) => true,
        (CheckType::Array(x), CheckType::Array(y)) => same_type(&**x, &**y),
        _ => false,
    }
}

fn leq(a: &CheckType, b: &CheckType) -> (r: bool)
    ensures
        r == type_leq(*a, *b),
{
    if same_type(a, b) {
        return true;
    }
    match (a, b) {
        (CheckType::Cbit, CheckType::Int) => true,
        (CheckType::Cbit, CheckType::Float) => true,
        (CheckType::Int, CheckType::Float) => true,
        _ => false,
    }
}

fn max_of(a: CheckType, b: CheckType) -> (r: CheckType)
    ensures
        r == max_type(a, b),
{
    if leq(&a, &b) {
        b
    } else {
        a
    }
}

/// The name of a type: `Int`, `Float`, `Cbit`, `Qbit`, `Array[..]`.
pub open spec fn type_text(t: CheckType) -> Seq<char>
    decreases t,
{
    match t {
        CheckType::Cbit => "Cbit"@,
        CheckType::Int => "Int"@,
        CheckType::Float => "Float"@,
        CheckType::Qbit => "Qbit"@,
        CheckType::Array(inner) => "Array["@ + type_text(*inner) + "]"@,
    }
}

/// The name of a type; see [`type_text`].
pub fn show_type(t: CheckType) -> (r: String)
    ensures
        r@ == type_text(t),
    decreases t,
{
    match t {
        CheckType::Cbit => String::from_str("Cbit"),
        CheckType::Int => String::from_str("Int"),
        CheckType::Float => String::from_str("Float"),
        CheckType::Qbit => String::from_str("Qbit"),
        CheckType::Array(inner) => {
            let mut s = String::from_str("Array[");
            let inner_text = show_type(*inner);
            s.append(inner_text.as_str());
            s.append("]");
            s
        },
    }
}

/// The type a parameter declares: its scalar type, or an array of it.
pub open spec fn param_type(p: ParamV) -> CheckType {
    match p {
        ParamV::Scalar { ty, .. } => of_type(ty),
        ParamV::ArrayConst { ty, .. } => CheckType::Array(Box::new(of_type(ty))),
        ParamV::ArrayVar { ty, .. } => CheckType::Array(Box::new(of_type(ty))),
    }
}

/// The type a parameter declares; see [`param_type`].
pub fn type_of_parameter_declaration(p: &ParameterDeclaration) -> (r: Result<CheckType, String>)
    ensures
        r matches Ok(t) && t == param_type(p@),
{
    match p {
        ParameterDeclaration::Scalar { ty, .. } => Ok(check_type_of(*ty)),
        ParameterDeclaration::ArrayConst { ty, .. } => Ok(CheckType::Array(Box::new(check_type_of(*ty)))),
        ParameterDeclaration::ArrayVar { ty, .. } => Ok(CheckType::Array(Box::new(check_type_of(*ty)))),
    }
}

/// A result whose message is seen as its characters.
pub open spec fn rs<T>(r: Result<T, String>) -> Result<T, Seq<char>> {
    match r {
        Ok(x) => Ok(x),
        Err(s) => Err(s@),
    }
}

/// The type of a location: a variable's type, or an array's element type.
pub open spec fn spec_check_lval(l: LvalV, m: TypeEnvV) -> Result<CheckType, Seq<char>> {
    match l {
        LvalV::Var(n) => match lookup(m, n) {
            Some(t) => Ok(t),
            None => Err("Unknown variable "@ + n),
        },
        LvalV::Array(n, _) => match lookup(m, n) {
            Some(CheckType::Array(t)) => Ok(*t),
            Some(other) => Err("Variable "@ + n + " is not an array (found "@ + type_text(other) + ")"@),
            None => Err("Unknown array "@ + n),
        },
    }
}

/// The type of an expression: literals and named constants are numbers,
/// a location has its type (a qbit is refused), an operation the larger of
/// its operands' types (which must be comparable).
pub open spec fn spec_check_exp(e: ExpV, m: TypeEnvV) -> Result<CheckType, Seq<char>>
    decreases e,
{
    match e {
        ExpV::Int(_) => Ok(CheckType::Int),
        ExpV::Float(_) => Ok(CheckType::Float),
        ExpV::NamedConst(_) => Ok(CheckType::Float),
        ExpV::Lval(l) => match spec_check_lval(l, m) {
            Err(x) => Err(x),
            Ok(t) => if t is Qbit {
                Err("Qbits cannot appear in classical expressions"@)
            } else {
                Ok(t)
            },
        },
        ExpV::Unary(_, e1) => spec_check_exp(*e1, m),
        ExpV::Binary(e1, _, e2) => match spec_check_exp(*e1, m) {
            Err(x) => Err(x),
            Ok(t1) => match spec_check_exp(*e2, m) {
                Err(x) => Err(x),
                Ok(t2) => if !type_leq(t1, t2) && !type_leq(t2, t1) {
                    Err("Binary operands incompatible: "@ + type_text(t1) + " and "@ + type_text(t2))
                } else {
                    Ok(max_type(t1, t2))
                },
            },
        },
        ExpV::Builtin1(_, e1) => spec_check_exp(*e1, m),
        ExpV::Builtin2(_, e1, e2) => match spec_check_exp(*e1, m) {
            Err(x) => Err(x),
            Ok(t1) => match spec_check_exp(*e2, m) {
                Err(x) => Err(x),
                Ok(t2) => if !type_leq(t1, t2) && !type_leq(t2, t1) {
                    Err("Builtin2 operands incompatible: "@ + type_text(t1) + " and "@ + type_text(t2))
                } else {
                    Ok(max_type(t1, t2))
                },
            },
        },
    }
}

fn message2(a: &str, b: &str) -> (r: String)
    ensures
        r@ == a@ + b@,
{
    let mut s = String::from_str(a);
    s.append(b);
    s
}

/// The type of a location; see [`spec_check_lval`].
pub fn typecheck_lval(l: Lval, env: &TypeEnv) -> (r: Result<CheckType, String>)
    requires
        env.wf(),
    ensures
        rs(r) == spec_check_lval(l@, env@),
{
    match l {
        Lval::Var(name) => match env.get(name.as_str()) {
            Some(t) => Ok(t.deep_copy()),
            None => Err(message2("Unknown variable ", name.as_str())),
        },
        Lval::Array(name, _) => match env.get(name.as_str()) {
            Some(CheckType::Array(elem)) => Ok((**elem).deep_copy()),
            Some(other) => {
                let mut s = message2("Variable ", name.as_str());
                s.append(" is not an array (found ");
                let t = show_type(other.deep_copy());
                s.append(t.as_str());
                s.append(")");
                Err(s)
            },
            None => Err(message2("Unknown array ", name.as_str())),
        },
    }
}

fn incompatible(what: &str, t1: &CheckType, t2: &CheckType) -> (r: String)
    ensures
        r@ == what@ + type_text(*t1) + " and "@ + type_text(*t2),
{
    let mut s = String::from_str(what);
    let a = show_type(t1.deep_copy());
    s.append(a.as_str());
    s.append(" and ");
    let b = show_type(t2.deep_copy());
    s.append(b.as_str());
    s
}

/// The type of an expression; see [`spec_check_exp`].
pub fn typecheck_exp(e: Exp, env: &TypeEnv) -> (r: Result<CheckType, String>)
    requires
        env.wf(),
    ensures
        rs(r) == spec_check_exp(e@, env@),
    decreases e,
{
    match e {
        Exp::Int(_) => Ok(CheckType::Int),
        Exp::Float(_) => Ok(CheckType::Float),
        Exp::NamedConst(_) => Ok(CheckType::Float),
        Exp::Lval(l) => {
            let ty = match typecheck_lval(l, env) {
                Ok(t) => t,
                Err(x) => return Err(x),
            };
            match ty {
                CheckType::Qbit => Err(String::from_str("Qbits cannot appear in classical expressions")),
                t => Ok(t),
            }
        },
        Exp::Unary(_, e1) => typecheck_exp(*e1, env),
        Exp::Binary(e1, _, e2) => {
            let t1 = match typecheck_exp(*e1, env) {
                Ok(t) => t,
                Err(x) => return Err(x),
            };
            let t2 = match typecheck_exp(*e2, env) {
                Ok(t) => t,
                Err(x) => return Err(x),
            };
            if !leq(&t1, &t2) && !leq(&t2, &t1) {
                return Err(incompatible("Binary operands incompatible: ", &t1, &t2));
            }
            Ok(max_of(t1, t2))
        },
        Exp::Builtin1(_, e1) => typecheck_exp(*e1, env),
        Exp::Builtin2(_, e1, e2) => {
            let t1 = match typecheck_exp(*e1, env) {
                Ok(t) => t,
                Err(x) => return Err(x),
            };
            let t2 = match typecheck_exp(*e2, env) {
                Ok(t) => t,
                Err(x) => return Err(x),
            };
            if !leq(&t1, &t2) && !leq(&t2, &t1) {
                return Err(incompatible("Builtin2 operands incompatible: ", &t1, &t2));
            }
            Ok(max_of(t1, t2))
        },
    }
}

/// A quantum update acts on qbits.
pub open spec fn spec_check_qupdate(q: QUpdateV, m: TypeEnvV) -> Result<(), Seq<char>> {
    match q {
        QUpdateV::Gate(_, l) => match spec_check_lval(l, m) {
            Err(x) => Err(x),
            Ok(t) => if t is Qbit {
                Ok(())
            } else {
                Err("Gate target must be a qbit"@)
            },
        },
        QUpdateV::Swap(x, y) => match spec_check_lval(x, m) {
            Err(e) => Err(e),
            Ok(tx) => match spec_check_lval(y, m) {
                Err(e) => Err(e),
                Ok(ty) => if tx is Qbit && ty is Qbit {
                    Ok(())
                } else {
                    Err("Swap operands must be qbits"@)
                },
            },
        },
    }
}

/// Checks a quantum update; see [`spec_check_qupdate`].
pub fn typecheck_qupdate(q: QUpdate, env: &TypeEnv) -> (r: Result<(), String>)
    requires
        env.wf(),
    ensures
        rs(r) == spec_check_qupdate(q@, env@),
{
    match q {
        QUpdate::Gate(_, l) => {
            let t = match typecheck_lval(l, env) {
                Ok(t) => t,
                Err(x) => return Err(x),
            };
            match t {
                CheckType::Qbit => Ok(()),
                _ => Err(String::from_str("Gate target must be a qbit")),
            }
        },
        QUpdate::Swap(x, y) => {
            let tx = match typecheck_lval(x, env) {
                Ok(t) => t,
                Err(e) => return Err(e),
            };
            let ty = match typecheck_lval(y, env) {
                Ok(t) => t,
                Err(e) => return Err(e),
            };
            match (tx, ty) {
                (CheckType::Qbit, CheckType::Qbit) => Ok(()),
                _ => Err(String::from_str("Swap operands must be qbits")),
            }
        },
    }
}

/// The elements of an array initializer fit its element type, checked in
/// order up to the first problem.
pub open spec fn spec_check_values(vs: Seq<ExpV>, ty: Type, name: Seq<char>, m: TypeEnvV) -> Result<
    (),
    Seq<char>,
>
    decreases vs.len(),
{
    if vs.len() == 0 {
        Ok(())
    } else {
        match spec_check_values(vs.drop_last(), ty, name, m) {
            Err(x) => Err(x),
            Ok(_) => match spec_check_exp(vs.last(), m) {
                Err(x) => Err(x),
                Ok(vt) => if !type_leq(vt, of_type(ty)) {
                    Err("Array element type mismatch in "@ + name + ": "@ + type_text(vt))
                } else {
                    Ok(())
                },
            },
        }
    }
}

/// The environment after a declaration: the declared name gets the
/// declared type (an array initializer makes an array), once the
/// initializer fits it.
pub open spec fn spec_check_decl(d: DeclarationV, m: TypeEnvV) -> Result<TypeEnvV, Seq<char>> {
    match d {
        DeclarationV::Uninit { ty, lval } => Ok(declare(m, lval_name_of(lval), Some(of_type(ty)))),
        DeclarationV::InitScalar { ty, name, value } => match spec_check_exp(value, m) {
            Err(x) => Err(x),
            Ok(et) => if !type_leq(et, of_type(ty)) {
                Err("Type mismatch in declaration "@ + name + ": "@ + type_text(of_type(ty)) + " vs "@
                    + type_text(et))
            } else {
                Ok(declare(m, name, Some(of_type(ty))))
            },
        },
        DeclarationV::InitArray { ty, name, values, .. } => match spec_check_values(values, ty, name, m) {
            Err(x) => Err(x),
            Ok(_) => Ok(declare(m, name, Some(CheckType::Array(Box::new(of_type(ty)))))),
        },
    }
}

proof fn lemma_check_values_prefix_err(vs: Seq<ExpV>, ty: Type, name: Seq<char>, m: TypeEnvV, n: int, x: Seq<char>)
    requires
        0 <= n <= vs.len(),
        spec_check_values(vs.take(n), ty, name, m) == Err::<(), Seq<char>>(x),
    ensures
        spec_check_values(vs, ty, name, m) == Err::<(), Seq<char>>(x),
    decreases vs.len() - n,
{
    if n < vs.len() {
        assert(vs.take(n + 1).drop_last() =~= vs.take(n));
        lemma_check_values_prefix_err(vs, ty, name, m, n + 1, x);
    } else {
        assert(vs.take(n) =~= vs);
    }
}

fn typecheck_values(vs: Vec<Exp>, ty: Type, name: &String, env: &TypeEnv) -> (r: Result<(), String>)
    requires
        env.wf(),
    ensures
        rs(r) == spec_check_values(exps_view(vs@), ty, name@, env@),
{
    let ghost all = exps_view(vs@);
    let target = check_type_of(ty);
    assert(all.take(0) =~= Seq::<ExpV>::empty());
    for k in 0..vs.len()
        invariant
            env.wf(),
            all == exps_view(vs@),
            target == of_type(ty),
            spec_check_values(all.take(k as int), ty, name@, env@) == Ok::<(), Seq<char>>(()),
    {
        assert(all.take(k + 1).drop_last() =~= all.take(k as int));
        assert(all.take(k + 1).last() == vs@[k as int]@);
        let vt = match typecheck_exp(crate::ast::copy_exp(&vs[k]), env) {
            Ok(t) => t,
            Err(x) => {
                proof {
                    lemma_check_values_prefix_err(all, ty, name@, env@, k + 1, x@);
                }
                return Err(x);
            },
        };
        if !leq(&vt, &target) {
            let mut s = message2("Array element type mismatch in ", name.as_str());
            s.append(": ");
            let t = show_type(vt);
            s.append(t.as_str());
            proof {
                lemma_check_values_prefix_err(all, ty, name@, env@, k + 1, s@);
            }
            return Err(s);
        }
    }
    assert(all.take(vs.len() as int) =~= all);
    Ok(())
}

/// Checks a declaration and enters the declared name; see
/// [`spec_check_decl`].
pub fn typecheck_declaration(d: Declaration, env: &mut TypeEnv) -> (r: Result<(), String>)
    requires
        old(env).wf(),
    ensures
        final(env).wf(),
        match r {
            Ok(_) => spec_check_decl(d@, old(env)@) == Ok::<TypeEnvV, Seq<char>>(final(env)@),
            Err(x) => spec_check_decl(d@, old(env)@) == Err::<TypeEnvV, Seq<char>>(x@),
        },
{
    match d {
        Declaration::Uninit { ty, lval } => {
            let n = lval_name(&lval);
            env.insert(n, check_type_of(ty));
            Ok(())
        },
        Declaration::InitScalar { ty, name, value } => {
            let et = match typecheck_exp(value, env) {
                Ok(t) => t,
                Err(x) => return Err(x),
            };
            let target = check_type_of(ty);
            if !leq(&et, &target) {
                let mut s = message2("Type mismatch in declaration ", name.as_str());
                s.append(": ");
                let a = show_type(target);
                s.append(a.as_str());
                s.append(" vs ");
                let b = show_type(et);
                s.append(b.as_str());
                return Err(s);
            }
            env.insert(name, target);
            Ok(())
        },
        Declaration::InitArray { ty, name, values, .. } => {
            match typecheck_values(values, ty, &name, env) {
                Ok(_) => {},
                Err(x) => return Err(x),
            }
            env.insert(name, CheckType::Array(Box::new(check_type_of(ty))));
            Ok(())
        },
    }
}

/// The environment after declarations in order, up to the first problem.
pub open spec fn spec_check_decls(ds: Seq<DeclarationV>, m: TypeEnvV) -> Result<TypeEnvV, Seq<char>>
    decreases ds.len(),
{
    if ds.len() == 0 {
        Ok(m)
    } else {
        match spec_check_decls(ds.drop_last(), m) {
            Err(x) => Err(x),
            Ok(m1) => spec_check_decl(ds.last(), m1),
        }
    }
}

/// Whether a type is a classical scalar.
pub open spec fn classical(t: CheckType) -> bool {
    t is Cbit || t is Int || t is Float
}

/// The first problem of a statement, if any: classical assignments of
/// fitting types, quantum updates on qbits controlled by cbits,
/// measurements from a qbit into a cbit, classical conditions; a block is
/// checked with its declarations added to a copy of the environment. Calls
/// are not checked.
pub open spec fn spec_check_stmt(s: StatementV, m: TypeEnvV) -> Result<(), Seq<char>>
    decreases s,
{
    match s {
        StatementV::Assignment(l, e) => match spec_check_lval(l, m) {
            Err(x) => Err(x),
            Ok(lt) => if lt is Qbit || lt == CheckType::Array(Box::new(CheckType::Qbit)) {
                Err("Cannot assign to a qbit"@)
            } else {
                match spec_check_exp(e, m) {
                    Err(x) => Err(x),
                    Ok(et) => if et is Qbit {
                        Err("Cannot assign a qbit in classical assignment"@)
                    } else if !type_leq(et, lt) {
                        Err("Type mismatch in assignment: "@ + type_text(lt) + " = "@ + type_text(et))
                    } else {
                        Ok(())
                    },
                }
            },
        },
        StatementV::QUpdate(q) => spec_check_qupdate(q, m),
        StatementV::ConditionalQUpdate(q, c) => match spec_check_lval(c, m) {
            Err(x) => Err(x),
            Ok(ct) => if !(ct is Cbit) {
                Err("Conditional qupdate must use a cbit"@)
            } else {
                spec_check_qupdate(q, m)
            },
        },
        StatementV::ProcedureCall(_, _) => Ok(()),
        StatementV::Measure(q, c) => match spec_check_lval(q, m) {
            Err(x) => Err(x),
            Ok(qt) => if !(qt is Qbit) {
                Err("Measure source must be a qbit"@)
            } else {
                match spec_check_lval(c, m) {
                    Err(x) => Err(x),
                    Ok(ct) => if !(ct is Cbit) {
                        Err("Measure target must be a cbit"@)
                    } else {
                        Ok(())
                    },
                }
            },
        },
        StatementV::If(c, t, f) => match spec_check_exp(c, m) {
            Err(x) => Err(x),
            Ok(ct) => if !classical(ct) {
                Err("If condition must be classical scalar"@)
            } else {
                match spec_check_stmt(*t, m) {
                    Err(x) => Err(x),
                    Ok(_) => spec_check_stmt(*f, m),
                }
            },
        },
        StatementV::While(c, b) => match spec_check_exp(c, m) {
            Err(x) => Err(x),
            Ok(ct) => if !classical(ct) {
                Err("While condition must be classical scalar"@)
            } else {
                spec_check_stmt(*b, m)
            },
        },
        StatementV::Block(ds, ss) => match spec_check_decls(ds, m) {
            Err(x) => Err(x),
            Ok(m2) => spec_check_stmts(ss, m2),
        },
    }
}

/// The first problem of statements in order, if any.
pub open spec fn spec_check_stmts(ss: Seq<StatementV>, m: TypeEnvV) -> Result<(), Seq<char>>
    decreases ss,
{
    if ss.len() == 0 {
        Ok(())
    } else {
        match spec_check_stmts(ss.drop_last(), m) {
            Err(x) => Err(x),
            Ok(_) => spec_check_stmt(ss.last(), m),
        }
    }
}

proof fn lemma_check_decls_prefix_err(ds: Seq<DeclarationV>, m: TypeEnvV, n: int, x: Seq<char>)
    requires
        0 <= n <= ds.len(),
        spec_check_decls(ds.take(n), m) == Err::<TypeEnvV, Seq<char>>(x),
    ensures
        spec_check_decls(ds, m) == Err::<TypeEnvV, Seq<char>>(x),
    decreases ds.len() - n,
{
    if n < ds.len() {
        assert(ds.take(n + 1).drop_last() =~= ds.take(n));
        lemma_check_decls_prefix_err(ds, m, n + 1, x);
    } else {
        assert(ds.take(n) =~= ds);
    }
}

proof fn lemma_check_stmts_prefix_err(ss: Seq<StatementV>, m: TypeEnvV, n: int, x: Seq<char>)
    requires
        0 <= n <= ss.len(),
        spec_check_stmts(ss.take(n), m) == Err::<(), Seq<char>>(x),
    ensures
        spec_check_stmts(ss, m) == Err::<(), Seq<char>>(x),
    decreases ss.len() - n,
{
    if n < ss.len() {
        assert(ss.take(n + 1).drop_last() =~= ss.take(n));
        lemma_check_stmts_prefix_err(ss, m, n + 1, x);
    } else {
        assert(ss.take(n) =~= ss);
    }
}

fn typecheck_declarations(ds: &Vec<Declaration>, env: &mut TypeEnv) -> (r: Result<(), String>)
    requires
        old(env).wf(),
    ensures
        final(env).wf(),
        match r {
            Ok(_) => spec_check_decls(decls_view(ds@), old(env)@) == Ok::<TypeEnvV, Seq<char>>(final(env)@),
            Err(x) => spec_check_decls(decls_view(ds@), old(env)@) == Err::<TypeEnvV, Seq<char>>(x@),
        },
{
    let ghost all = decls_view(ds@);
    let ghost m0 = old(env)@;
    assert(all.take(0) =~= Seq::<DeclarationV>::empty());
    for k in 0..ds.len()
        invariant
            env.wf(),
            all == decls_view(ds@),
            m0 == old(env)@,
            spec_check_decls(all.take(k as int), m0) == Ok::<TypeEnvV, Seq<char>>(env@),
    {
        assert(all.take(k + 1).drop_last() =~= all.take(k as int));
        assert(all.take(k + 1).last() == ds@[k as int]@);
        match typecheck_declaration(crate::ast::copy_decl(&ds[k]), env) {
            Ok(_) => {},
            Err(x) => {
                proof {
                    lemma_check_decls_prefix_err(all, m0, k + 1, x@);
                }
                return Err(x);
            },
        }
    }
    assert(all.take(ds.len() as int) =~= all);
    Ok(())
}

fn typecheck_statements(ss: &Vec<Statement>, env: &mut TypeEnv, Ghost(whole): Ghost<StatementV>) -> (r:
    Result<(), String>)
    requires
        old(env).wf(),
        whole matches StatementV::Block(_, sv) && sv == stmts_view(ss@),
    ensures
        final(env).wf(),
        final(env)@ == old(env)@,
        rs(r) == spec_check_stmts(stmts_view(ss@), old(env)@),
    decreases whole, 0nat,
{
    let ghost all = stmts_view(ss@);
    let ghost m0 = old(env)@;
    assert(all.take(0) =~= Seq::<StatementV>::empty());
    for k in 0..ss.len()
        invariant
            env.wf(),
            all == stmts_view(ss@),
            m0 == old(env)@,
            env@ == m0,
            whole matches StatementV::Block(_, sv) && sv == all,
            spec_check_stmts(all.take(k as int), m0) == Ok::<(), Seq<char>>(()),
    {
        assert(all.take(k + 1).drop_last() =~= all.take(k as int));
        assert(all.take(k + 1).last() == ss@[k as int]@);
        let c = crate::ast::copy_stmt(&ss[k]);
        proof {
            assert(decreases_to!(whole => whole->Block_1));
            assert(decreases_to!(all => all[k as int]));
        }
        match typecheck_statement(c, env) {
            Ok(_) => {},
            Err(x) => {
                proof {
                    lemma_check_stmts_prefix_err(all, m0, k + 1, x@);
                }
                return Err(x);
            },
        }
    }
    assert(all.take(ss.len() as int) =~= all);
    Ok(())
}

/// Checks a statement; the environment is left as it was; see
/// [`spec_check_stmt`].
pub fn typecheck_statement(s: Statement, env: &mut TypeEnv) -> (r: Result<(), String>)
    requires
        old(env).wf(),
    ensures
        final(env).wf(),
        final(env)@ == old(env)@,
        rs(r) == spec_check_stmt(s@, old(env)@),
    decreases s@, 1nat,
{
    let ghost s0 = s;
    match s {
        Statement::Assignment(l, e) => {
            let lt = match typecheck_lval(l, env) {
                Ok(t) => t,
                Err(x) => return Err(x),
            };
            let to_qbit = match &lt {
                CheckType::Qbit => true,
                CheckType::Array(inner) => match **inner {
                    CheckType::Qbit => true,
                    _ => false,
                },
                _ => false,
            };
            if to_qbit {
                return Err(String::from_str("Cannot assign to a qbit"));
            }
            let et = match typecheck_exp(e, env) {
                Ok(t) => t,
                Err(x) => return Err(x),
            };
            match et {
                CheckType::Qbit => {
                    return Err(String::from_str("Cannot assign a qbit in classical assignment"));
                },
                _ => {},
            }
            if !leq(&et, &lt) {
                let mut m = String::from_str("Type mismatch in assignment: ");
                let a = show_type(lt);
                m.append(a.as_str());
                m.append(" = ");
                let b = show_type(et);
                m.append(b.as_str());
                return Err(m);
            }
            Ok(())
        },
        Statement::QUpdate(q) => typecheck_qupdate(q, env),
        Statement::ConditionalQUpdate(q, c) => {
            let ct = match typecheck_lval(c, env) {
                Ok(t) => t,
                Err(x) => return Err(x),
            };
            match ct {
                CheckType::Cbit => typecheck_qupdate(q, env),
                _ => Err(String::from_str("Conditional qupdate must use a cbit")),
            }
        },
        Statement::ProcedureCall(_, _) => Ok(()),
        Statement::Measure(q, c) => {
            let qt = match typecheck_lval(q, env) {
                Ok(t) => t,
                Err(x) => return Err(x),
            };
            match qt {
                CheckType::Qbit => {},
                _ => {
                    return Err(String::from_str("Measure source must be a qbit"));
                },
            }
            let ct = match typecheck_lval(c, env) {
                Ok(t) => t,
                Err(x) => return Err(x),
            };
            match ct {
                CheckType::Cbit => Ok(()),
                _ => Err(String::from_str("Measure target must be a cbit")),
            }
        },
        Statement::If(cond, t, f) => {
            let ct = match typecheck_exp(cond, env) {
                Ok(t) => t,
                Err(x) => return Err(x),
            };
            match ct {
                CheckType::Cbit | CheckType::Int | CheckType::Float => {},
                _ => {
                    return Err(String::from_str("If condition must be classical scalar"));
                },
            }
            proof {
                assert(decreases_to!(s0@ => s0@->If_1));
                assert(decreases_to!(s0@ => s0@->If_2));
            }
            match typecheck_statement(*t, env) {
                Ok(_) => {},
                Err(x) => return Err(x),
            }
            typecheck_statement(*f, env)
        },
        Statement::While(cond, body) => {
            let ct = match typecheck_exp(cond, env) {
                Ok(t) => t,
                Err(x) => return Err(x),
            };
            match ct {
                CheckType::Cbit | CheckType::Int | CheckType::Float => {},
                _ => {
                    return Err(String::from_str("While condition must be classical scalar"));
                },
            }
            proof {
                assert(decreases_to!(s0@ => s0@->While_1));
            }
            typecheck_statement(*body, env)
        },
        Statement::Block(ds, ss) => {
            proof {
                lemma_block_view(ds@, ss@, s0);
            }
            let mut local = env.deep_copy();
            match typecheck_declarations(&ds, &mut local) {
                Ok(_) => {},
                Err(x) => return Err(x),
            }
            typecheck_statements(&ss, &mut local, Ghost(s0@))
        },
    }
}

/// The environment with the parameters entered in order with their types.
pub open spec fn declare_params(ps: Seq<ParamV>, m: TypeEnvV) -> TypeEnvV
    decreases ps.len(),
{
    if ps.len() == 0 {
        m
    } else {
        declare(declare_params(ps.drop_last(), m), param_name_of(ps.last()), Some(param_type(ps.last())))
    }
}

/// A procedure's body is checked with its parameters added to a copy of
/// the environment.
pub open spec fn spec_check_procedure(p: ProcedureV, m: TypeEnvV) -> Result<(), Seq<char>> {
    spec_check_stmt(p.body, declare_params(p.params, m))
}

/// The first problem of the procedures in order, if any.
pub open spec fn spec_check_procs(ps: Seq<ProcedureV>, m: TypeEnvV) -> Result<(), Seq<char>>
    decreases ps.len(),
{
    if ps.len() == 0 {
        Ok(())
    } else {
        match spec_check_procs(ps.drop_last(), m) {
            Err(x) => Err(x),
            Ok(_) => spec_check_procedure(ps.last(), m),
        }
    }
}

/// Checks a procedure; see [`spec_check_procedure`].
pub fn typecheck_procedure(p: Procedure, env: &mut TypeEnv) -> (r: Result<(), String>)
    requires
        old(env).wf(),
    ensures
        final(env).wf(),
        final(env)@ == old(env)@,
        rs(r) == spec_check_procedure(p@, old(env)@),
{
    let mut local = env.deep_copy();
    let ghost pv = params_view(p.params@);
    let ghost m0 = env@;
    for k in 0..p.params.len()
        invariant
            local.wf(),
            pv == params_view(p.params@),
            local@ == declare_params(pv.take(k as int), m0),
    {
        assert(pv.take(k + 1).drop_last() =~= pv.take(k as int));
        assert(pv.take(k + 1).last() == p.params@[k as int]@);
        let ty = match type_of_parameter_declaration(&p.params[k]) {
            Ok(t) => t,
            Err(x) => return Err(x),
        };
        local.insert(param_name(&p.params[k]), ty);
    }
    assert(pv.take(p.params.len() as int) =~= pv);
    typecheck_statement(p.body, &mut local)
}

proof fn lemma_check_procs_prefix_err(ps: Seq<ProcedureV>, m: TypeEnvV, n: int, x: Seq<char>)
    requires
        0 <= n <= ps.len(),
        spec_check_procs(ps.take(n), m) == Err::<(), Seq<char>>(x),
    ensures
        spec_check_procs(ps, m) == Err::<(), Seq<char>>(x),
    decreases ps.len() - n,
{
    if n < ps.len() {
        assert(ps.take(n + 1).drop_last() =~= ps.take(n));
        lemma_check_procs_prefix_err(ps, m, n + 1, x);
    } else {
        assert(ps.take(n) =~= ps);
    }
}

/// Checks every procedure of a program in turn; see [`spec_check_procs`].
pub fn typecheck_program(p: Program, env: &mut TypeEnv) -> (r: Result<(), String>)
    requires
        old(env).wf(),
    ensures
        final(env).wf(),
        final(env)@ == old(env)@,
        rs(r) == spec_check_procs(p@.procedures, old(env)@),
{
    let ghost all = procs_view(p.procedures@);
    let ghost m0 = env@;
    assert(all.take(0) =~= Seq::<ProcedureV>::empty());
    for k in 0..p.procedures.len()
        invariant
            env.wf(),
            env@ == m0,
            m0 == old(env)@,
            all == procs_view(p.procedures@),
            spec_check_procs(all.take(k as int), m0) == Ok::<(), Seq<char>>(()),
    {
        assert(all.take(k + 1).drop_last() =~= all.take(k as int));
        assert(all.take(k + 1).last() == p.procedures@[k as int]@);
        match typecheck_procedure(crate::ast::copy_procedure(&p.procedures[k]), env) {
            Ok(_) => {},
            Err(x) => {
                proof {
                    lemma_check_procs_prefix_err(all, m0, k + 1, x@);
                }
                return Err(x);
            },
        }
    }
    assert(all.take(p.procedures.len() as int) =~= all);
    Ok(())
}

} // verus!
