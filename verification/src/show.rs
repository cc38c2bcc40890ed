//! Printing programs in the language's concrete syntax.
//!
//! A float literal is written by a formatter that the caller supplies (see
//! [`text_ok`]); everything else is written here.
use vstd::prelude::*;
use vstd::string::*;
use crate::ast::{
    Declaration,
    DeclarationV,
    Exp,
    ExpV,
    Gate,
    GateV,
    Lval,
    LvalV,
    ParamV,
    ParameterDeclaration,
    Procedure,
    ProcedureV,
    Program,
    ProgramV,
    QUpdate,
    QUpdateV,
    Statement,
    StatementV,
    Type,
    decls_view,
    exps_view,
    lemma_block_view,
    lvals_view,
    stmts_view,
};
use crate::text::{i64_text, int_text};

verus! {

/// Whether the float formatter can be called on every bit pattern and
/// writes the same text each time.
pub open spec fn text_ok<F: Fn(u64) -> String>(f: &F) -> bool {
    &&& forall|b: u64| call_requires(*f, (b,))
    &&& forall|b: u64, s1: String, s2: String|
        call_ensures(*f, (b,), s1) && call_ensures(*f, (b,), s2) ==> s1@ == s2@
}

/// The text the formatter writes for the float with bit pattern `b`.
pub open spec fn float_text<F: Fn(u64) -> String>(f: &F, b: u64) -> Seq<char> {
    (choose|s: String| call_ensures(*f, (b,), s))@
}

fn float_string<F: Fn(u64) -> String>(f: &F, b: u64) -> (r: String)
    requires
        text_ok(f),
    ensures
        r@ == float_text(f, b),
{
    let r = f(b);
    r
}

/// The parts with `sep` between each two.
pub open spec fn joined(parts: Seq<Seq<char>>, sep: Seq<char>) -> Seq<char>
    decreases parts.len(),
{
    if parts.len() == 0 {
        Seq::empty()
    } else if parts.len() == 1 {
        parts[0]
    } else {
        joined(parts.drop_last(), sep) + sep + parts.last()
    }
}

/// `depth` levels of indentation, two spaces each.
pub open spec fn indent(depth: nat) -> Seq<char>
    decreases depth,
{
    if depth == 0 {
        Seq::empty()
    } else {
        indent((depth - 1) as nat) + "  "@
    }
}

fn indent_string(depth: usize) -> (r: String)
    ensures
        r@ == indent(depth as nat),
{
    let mut s = String::new();
    for k in 0..depth
        invariant
            s@ == indent(k as nat),
    {
        s.append("  ");
    }
    s
}

/// The keyword of a type.
pub open spec fn type_keyword(t: Type) -> Seq<char> {
    match t {
        Type::Int => "int"@,
        Type::Float => "float"@,
        Type::Cbit => "cbit"@,
        Type::Qbit => "qbit"@,
    }
}

/// The keyword of a type: `int`, `float`, `cbit` or `qbit`.
pub fn show_type(t: &Type) -> (r: String)
    ensures
        r@ == type_keyword(*t),
{
    match t {
        Type::Int => String::from_str("int"),
        Type::Float => String::from_str("float"),
        Type::Cbit => String::from_str("cbit"),
        Type::Qbit => String::from_str("qbit"),
    }
}

/// A parameter: its type and name, with the size of an array in brackets.
pub open spec fn param_text(p: ParamV) -> Seq<char> {
    match p {
        ParamV::Scalar { ty, name } => type_keyword(ty) + " "@ + name,
        ParamV::ArrayConst { ty, name, size } => type_keyword(ty) + " "@ + name + "["@ + int_text(size as int)
            + "]"@,
        ParamV::ArrayVar { ty, name, size } => type_keyword(ty) + " "@ + name + "["@ + size + "]"@,
    }
}

/// Writes a parameter declaration; see [`param_text`].
pub fn show_parameter_declaration(p: &ParameterDeclaration) -> (r: String)
    ensures
        r@ == param_text(p@),
{
    match p {
        ParameterDeclaration::Scalar { ty, name } => {
            let mut s = show_type(ty);
            s.append(" ");
            s.append(name.as_str());
            s
        },
        ParameterDeclaration::ArrayConst { ty, name, size } => {
            let mut s = show_type(ty);
            s.append(" ");
            s.append(name.as_str());
            s.append("[");
            let n = i64_text(*size);
            s.append(n.as_str());
            s.append("]");
            s
        },
        ParameterDeclaration::ArrayVar { ty, name, size } => {
            let mut s = show_type(ty);
            s.append(" ");
            s.append(name.as_str());
            s.append("[");
            s.append(size.as_str());
            s.append("]");
            s
        },
    }
}

// ---------------------------------------------------------------------------
// Expressions
// ---------------------------------------------------------------------------

/// An expression in concrete syntax: operations in parentheses, built-in
/// functions applied to their arguments.
pub open spec fn exp_text<F: Fn(u64) -> String>(f: &F, e: ExpV) -> Seq<char>
    decreases e,
{
    match e {
        ExpV::Int(v) => int_text(v as int),
        ExpV::Float(v) => float_text(f, v),
        ExpV::NamedConst(c) => c,
        ExpV::Lval(l) => lval_text(f, l),
        ExpV::Unary(op, e1) => "("@ + op + " "@ + exp_text(f, *e1) + ")"@,
        ExpV::Binary(l, op, r) => "("@ + exp_text(f, *l) + " "@ + op + " "@ + exp_text(f, *r) + ")"@,
        ExpV::Builtin1(g, e1) => g + "("@ + exp_text(f, *e1) + ")"@,
        ExpV::Builtin2(g, e1, e2) => g + "("@ + exp_text(f, *e1) + ","@ + exp_text(f, *e2) + ")"@,
    }
}

/// A location: a name, with an index in brackets.
pub open spec fn lval_text<F: Fn(u64) -> String>(f: &F, l: LvalV) -> Seq<char>
    decreases l,
{
    match l {
        LvalV::Var(n) => n,
        LvalV::Array(n, idx) => n + "["@ + exp_text(f, *idx) + "]"@,
    }
}

/// Writes an expression; see [`exp_text`].
pub fn show_exp<F: Fn(u64) -> String>(e: &Exp, f: &F) -> (r: String)
    requires
        text_ok(f),
    ensures
        r@ == exp_text(f, e@),
    decreases e,
{
    match e {
        Exp::Int(v) => i64_text(*v),
        Exp::Float(v) => float_string(f, *v),
        Exp::NamedConst(c) => c.clone(),
        Exp::Lval(l) => show_lval(l, f),
        Exp::Unary(op, e1) => {
            let mut s = String::from_str("(");
            s.append(op.as_str());
            s.append(" ");
            let x = show_exp(e1, f);
            s.append(x.as_str());
            s.append(")");
            s
        },
        Exp::Binary(l, op, r) => {
            let mut s = String::from_str("(");
            let x = show_exp(l, f);
            s.append(x.as_str());
            s.append(" ");
            s.append(op.as_str());
            s.append(" ");
            let y = show_exp(r, f);
            s.append(y.as_str());
            s.append(")");
            s
        },
        Exp::Builtin1(g, e1) => {
            let mut s = g.clone();
            s.append("(");
            let x = show_exp(e1, f);
            s.append(x.as_str());
            s.append(")");
            s
        },
        Exp::Builtin2(g, e1, e2) => {
            let mut s = g.clone();
            s.append("(");
            let x = show_exp(e1, f);
            s.append(x.as_str());
            s.append(",");
            let y = show_exp(e2, f);
            s.append(y.as_str());
            s.append(")");
            s
        },
    }
}

/// Writes a location; see [`lval_text`].
pub fn show_lval<F: Fn(u64) -> String>(l: &Lval, f: &F) -> (r: String)
    requires
        text_ok(f),
    ensures
        r@ == lval_text(f, l@),
    decreases l,
{
    match l {
        Lval::Var(name) => name.clone(),
        Lval::Array(name, idx) => {
            let mut s = name.clone();
            s.append("[");
            let x = show_exp(idx, f);
            s.append(x.as_str());
            s.append("]");
            s
        },
    }
}

// ---------------------------------------------------------------------------
// Updates and declarations
// ---------------------------------------------------------------------------

/// A gate: its name, with its angle in parentheses.
pub open spec fn gate_text<F: Fn(u64) -> String>(f: &F, g: GateV) -> Seq<char> {
    match g {
        GateV::Not => "not"@,
        GateV::H => "H"@,
        GateV::Rx(e) => "Rx"@ + "("@ + exp_text(f, e) + ")"@,
        GateV::Ry(e) => "Ry"@ + "("@ + exp_text(f, e) + ")"@,
        GateV::Rz(e) => "Rz"@ + "("@ + exp_text(f, e) + ")"@,
        GateV::P(e) => "P"@ + "("@ + exp_text(f, e) + ")"@,
    }
}

/// A quantum update: a gate and its target, or two locations swapped.
pub open spec fn qupdate_text<F: Fn(u64) -> String>(f: &F, q: QUpdateV) -> Seq<char> {
    match q {
        QUpdateV::Gate(g, l) => gate_text(f, g) + " "@ + lval_text(f, l),
        QUpdateV::Swap(a, b) => lval_text(f, a) + " <> "@ + lval_text(f, b),
    }
}

fn angle_call<F: Fn(u64) -> String>(name: &str, e: &Exp, f: &F) -> (r: String)
    requires
        text_ok(f),
    ensures
        r@ == name@ + "("@ + exp_text(f, e@) + ")"@,
{
    let mut s = String::from_str(name);
    s.append("(");
    let x = show_exp(e, f);
    s.append(x.as_str());
    s.append(")");
    s
}

/// Writes a gate; see [`gate_text`].
pub fn show_gate<F: Fn(u64) -> String>(g: &Gate, f: &F) -> (r: String)
    requires
        text_ok(f),
    ensures
        r@ == gate_text(f, g@),
{
    match g {
        Gate::Not => String::from_str("not"),
        Gate::H => String::from_str("H"),
        Gate::Rx(e) => angle_call("Rx", e, f),
        Gate::Ry(e) => angle_call("Ry", e, f),
        Gate::Rz(e) => angle_call("Rz", e, f),
        Gate::P(e) => angle_call("P", e, f),
    }
}

/// Writes a quantum update; see [`qupdate_text`].
pub fn show_qupdate<F: Fn(u64) -> String>(q: &QUpdate, f: &F) -> (r: String)
    requires
        text_ok(f),
    ensures
        r@ == qupdate_text(f, q@),
{
    match q {
        QUpdate::Gate(g, l) => {
            let mut s = show_gate(g, f);
            s.append(" ");
            let x = show_lval(l, f);
            s.append(x.as_str());
            s
        },
        QUpdate::Swap(a, b) => {
            let mut s = show_lval(a, f);
            s.append(" <> ");
            let x = show_lval(b, f);
            s.append(x.as_str());
            s
        },
    }
}

/// The texts of expressions.
pub open spec fn exp_texts<F: Fn(u64) -> String>(f: &F, es: Seq<ExpV>) -> Seq<Seq<char>> {
    Seq::new(es.len(), |i: int| exp_text(f, es[i]))
}

/// The texts of locations.
pub open spec fn lval_texts<F: Fn(u64) -> String>(f: &F, ls: Seq<LvalV>) -> Seq<Seq<char>> {
    Seq::new(ls.len(), |i: int| lval_text(f, ls[i]))
}

/// A declaration, ended by ` ;`.
pub open spec fn decl_text<F: Fn(u64) -> String>(f: &F, d: DeclarationV) -> Seq<char> {
    match d {
        DeclarationV::Uninit { ty, lval } => type_keyword(ty) + " "@ + lval_text(f, lval) + " ;"@,
        DeclarationV::InitScalar { ty, name, value } => type_keyword(ty) + " "@ + name + " = "@ + exp_text(
            f,
            value,
        ) + " ;"@,
        DeclarationV::InitArray { ty, name, size, values } => type_keyword(ty) + " "@ + name + "["@
            + exp_text(f, size) + "] = ["@ + joined(exp_texts(f, values), ", "@) + "] ;"@,
    }
}

/// Appends the parts to `out` with `sep` between each two.
fn append_joined(out: &mut String, parts: &Vec<String>, sep: &str)
    ensures
        final(out)@ == old(out)@ + joined(Seq::new(parts@.len(), |i: int| parts@[i]@), sep@),
{
    let ghost all = Seq::new(parts@.len(), |i: int| parts@[i]@);
    let ghost o0 = out@;
    assert(all.take(0) =~= Seq::<Seq<char>>::empty());
    assert(out@ =~= o0 + joined(all.take(0), sep@));
    for k in 0..parts.len()
        invariant
            all == Seq::new(parts@.len(), |i: int| parts@[i]@),
            o0 == old(out)@,
            out@ == o0 + joined(all.take(k as int), sep@),
    {
        let ghost before = out@;
        if k > 0 {
            out.append(sep);
        }
        out.append(parts[k].as_str());
        assert(all.take(k + 1).drop_last() =~= all.take(k as int));
        if k == 0 {
            assert(all.take(1) =~= seq![all[0]]);
            assert(out@ =~= o0 + joined(all.take(k + 1), sep@));
        } else {
            assert(out@ =~= o0 + joined(all.take(k + 1), sep@));
        }
    }
    assert(all.take(parts.len() as int) =~= all);
}

fn exps_strings<F: Fn(u64) -> String>(es: &Vec<Exp>, f: &F) -> (r: Vec<String>)
    requires
        text_ok(f),
    ensures
        Seq::new(r@.len(), |i: int| r@[i]@) == exp_texts(f, exps_view(es@)),
{
    let mut out: Vec<String> = Vec::new();
    for k in 0..es.len()
        invariant
            text_ok(f),
            out@.len() == k,
            forall|j: int| 0 <= j < k ==> #[trigger] out@[j]@ == exp_text(f, es@[j]@),
    {
        out.push(show_exp(&es[k], f));
    }
    assert(Seq::new(out@.len(), |i: int| out@[i]@) =~= exp_texts(f, exps_view(es@)));
    out
}

fn lvals_strings<F: Fn(u64) -> String>(ls: &Vec<Lval>, f: &F) -> (r: Vec<String>)
    requires
        text_ok(f),
    ensures
        Seq::new(r@.len(), |i: int| r@[i]@) == lval_texts(f, lvals_view(ls@)),
{
    let mut out: Vec<String> = Vec::new();
    for k in 0..ls.len()
        invariant
            text_ok(f),
            out@.len() == k,
            forall|j: int| 0 <= j < k ==> #[trigger] out@[j]@ == lval_text(f, ls@[j]@),
    {
        out.push(show_lval(&ls[k], f));
    }
    assert(Seq::new(out@.len(), |i: int| out@[i]@) =~= lval_texts(f, lvals_view(ls@)));
    out
}

/// Writes a declaration; see [`decl_text`].
pub fn show_declaration<F: Fn(u64) -> String>(d: &Declaration, f: &F) -> (r: String)
    requires
        text_ok(f),
    ensures
        r@ == decl_text(f, d@),
{
    match d {
        Declaration::Uninit { ty, lval } => {
            let mut s = show_type(ty);
            s.append(" ");
            let x = show_lval(lval, f);
            s.append(x.as_str());
            s.append(" ;");
            s
        },
        Declaration::InitScalar { ty, name, value } => {
            let mut s = show_type(ty);
            s.append(" ");
            s.append(name.as_str());
            s.append(" = ");
            let x = show_exp(value, f);
            s.append(x.as_str());
            s.append(" ;");
            s
        },
        Declaration::InitArray { ty, name, size, values } => {
            let mut s = show_type(ty);
            s.append(" ");
            s.append(name.as_str());
            s.append("[");
            let x = show_exp(size, f);
            s.append(x.as_str());
            s.append("] = [");
            let parts = exps_strings(values, f);
            append_joined(&mut s, &parts, ", ");
            s.append("] ;");
            s
        },
    }
}

// ---------------------------------------------------------------------------
// Statements, procedures, programs
// ---------------------------------------------------------------------------

pub open spec fn max_nat(a: nat, b: nat) -> nat {
    if a < b {
        b
    } else {
        a
    }
}

/// How deeply statements nest inside a statement.
pub open spec fn nesting(s: StatementV) -> nat
    decreases s,
{
    match s {
        StatementV::If(_, t, f) => 1 + max_nat(nesting(*t), nesting(*f)),
        StatementV::While(_, b) => 1 + nesting(*b),
        StatementV::Block(_, ss) => 1 + nesting_all(ss),
        _ => 0,
    }
}

/// How deeply statements nest inside any of `ss`.
pub open spec fn nesting_all(ss: Seq<StatementV>) -> nat
    decreases ss,
{
    if ss.len() == 0 {
        0
    } else {
        max_nat(nesting_all(ss.drop_last()), nesting(ss.last()))
    }
}

/// Each statement nests no deeper than the statements it is among.
proof fn lemma_nesting_le(ss: Seq<StatementV>, i: int)
    requires
        0 <= i < ss.len(),
    ensures
        nesting(ss[i]) <= nesting_all(ss),
    decreases ss.len(),
{
    if i < ss.len() - 1 {
        lemma_nesting_le(ss.drop_last(), i);
        assert(ss.drop_last()[i] == ss[i]);
    }
}

/// A statement at indentation `depth`: simple statements on one line ended
/// by ` ;`, nested statements indented one level more, braces on lines of
/// their own.
pub open spec fn stmt_text<F: Fn(u64) -> String>(f: &F, s: StatementV, depth: nat) -> Seq<char>
    decreases s,
{
    let prefix = indent(depth);
    match s {
        StatementV::Assignment(l, e) => prefix + lval_text(f, l) + " = "@ + exp_text(f, e) + " ;"@,
        StatementV::QUpdate(q) => prefix + qupdate_text(f, q) + " ;"@,
        StatementV::ConditionalQUpdate(q, c) => prefix + qupdate_text(f, q) + " if "@ + lval_text(f, c)
            + " ;"@,
        StatementV::ProcedureCall(name, args) => prefix + "call '"@ + name + "' ("@ + joined(
            lval_texts(f, args),
            ", "@,
        ) + ") ;"@,
        StatementV::Measure(q, c) => prefix + "measure "@ + lval_text(f, q) + " -> "@ + lval_text(f, c)
            + " ;"@,
        StatementV::If(e, t, fl) => prefix + "if("@ + exp_text(f, e) + ") {\n"@ + stmt_text(
            f,
            *t,
            depth + 1,
        ) + "\n"@ + prefix + "} else {\n"@ + stmt_text(f, *fl, depth + 1) + "\n"@ + prefix + "}"@,
        StatementV::While(e, b) => prefix + "while("@ + exp_text(f, e) + ") {\n"@ + stmt_text(
            f,
            *b,
            depth + 1,
        ) + "\n"@ + prefix + "}"@,
        StatementV::Block(ds, ss) => prefix + "{\n"@ + joined(
            decl_lines(f, ds, depth + 1) + stmt_lines(f, ss, depth + 1),
            "\n"@,
        ) + "\n"@ + prefix + "}"@,
    }
}

/// Declarations, one per line, at indentation `depth`.
pub open spec fn decl_lines<F: Fn(u64) -> String>(f: &F, ds: Seq<DeclarationV>, depth: nat) -> Seq<
    Seq<char>,
> {
    Seq::new(ds.len(), |i: int| indent(depth) + decl_text(f, ds[i]))
}

/// Statements at indentation `depth`.
pub open spec fn stmt_lines<F: Fn(u64) -> String>(f: &F, ss: Seq<StatementV>, depth: nat) -> Seq<
    Seq<char>,
>
    decreases ss,
{
    if ss.len() == 0 {
        Seq::empty()
    } else {
        stmt_lines(f, ss.drop_last(), depth).push(stmt_text(f, ss.last(), depth))
    }
}

fn stmt_strings<F: Fn(u64) -> String>(ss: &Vec<Statement>, depth: usize, f: &F, parts: &mut Vec<String>)
    requires
        text_ok(f),
        depth + nesting_all(stmts_view(ss@)) <= usize::MAX,
    ensures
        Seq::new(final(parts)@.len(), |i: int| final(parts)@[i]@) == Seq::new(
            old(parts)@.len(),
            |i: int| old(parts)@[i]@,
        ) + stmt_lines(f, stmts_view(ss@), depth as nat),
    decreases ss,
{
    let ghost all = stmts_view(ss@);
    let ghost p0 = Seq::new(parts@.len(), |i: int| parts@[i]@);
    assert(all.take(0) =~= Seq::<StatementV>::empty());
    assert(Seq::new(parts@.len(), |i: int| parts@[i]@) =~= p0 + stmt_lines(f, all.take(0), depth as nat));
    for k in 0..ss.len()
        invariant
            text_ok(f),
            all == stmts_view(ss@),
            depth + nesting_all(all) <= usize::MAX,
            p0 == Seq::new(old(parts)@.len(), |i: int| old(parts)@[i]@),
            Seq::new(parts@.len(), |i: int| parts@[i]@) == p0 + stmt_lines(f, all.take(k as int), depth as nat),
    {
        proof {
            assert(decreases_to!(ss => ss@));
            assert(decreases_to!(ss@ => ss@[k as int]));
            lemma_nesting_le(all, k as int);
        }
        assert(all.take(k + 1).drop_last() =~= all.take(k as int));
        assert(all.take(k + 1).last() == ss@[k as int]@);
        let ghost before = Seq::new(parts@.len(), |i: int| parts@[i]@);
        let line = show_statement(&ss[k], depth, f);
        parts.push(line);
        assert(Seq::new(parts@.len(), |i: int| parts@[i]@) =~= before.push(line@));
    }
    assert(all.take(ss.len() as int) =~= all);
}

/// Writes a statement at indentation `depth`; see [`stmt_text`].
pub fn show_statement<F: Fn(u64) -> String>(s: &Statement, depth: usize, f: &F) -> (r: String)
    requires
        text_ok(f),
        depth + nesting(s@) <= usize::MAX,
    ensures
        r@ == stmt_text(f, s@, depth as nat),
    decreases s,
{
    let mut out = indent_string(depth);
    match s {
        Statement::Assignment(l, e) => {
            let x = show_lval(l, f);
            out.append(x.as_str());
            out.append(" = ");
            let y = show_exp(e, f);
            out.append(y.as_str());
            out.append(" ;");
        },
        Statement::QUpdate(q) => {
            let x = show_qupdate(q, f);
            out.append(x.as_str());
            out.append(" ;");
        },
        Statement::ConditionalQUpdate(q, c) => {
            let x = show_qupdate(q, f);
            out.append(x.as_str());
            out.append(" if ");
            let y = show_lval(c, f);
            out.append(y.as_str());
            out.append(" ;");
        },
        Statement::ProcedureCall(name, args) => {
            out.append("call '");
            out.append(name.as_str());
            out.append("' (");
            let parts = lvals_strings(args, f);
            append_joined(&mut out, &parts, ", ");
            out.append(") ;");
        },
        Statement::Measure(q, c) => {
            out.append("measure ");
            let x = show_lval(q, f);
            out.append(x.as_str());
            out.append(" -> ");
            let y = show_lval(c, f);
            out.append(y.as_str());
            out.append(" ;");
        },
        Statement::If(e, t, fl) => {
            out.append("if(");
            let x = show_exp(e, f);
            out.append(x.as_str());
            out.append(") {\n");
            let ts = show_statement(t, depth + 1, f);
            out.append(ts.as_str());
            out.append("\n");
            let p = indent_string(depth);
            out.append(p.as_str());
            out.append("} else {\n");
            let fs = show_statement(fl, depth + 1, f);
            out.append(fs.as_str());
            out.append("\n");
            out.append(p.as_str());
            out.append("}");
        },
        Statement::While(e, b) => {
            out.append("while(");
            let x = show_exp(e, f);
            out.append(x.as_str());
            out.append(") {\n");
            let bs = show_statement(b, depth + 1, f);
            out.append(bs.as_str());
            out.append("\n");
            let p = indent_string(depth);
            out.append(p.as_str());
            out.append("}");
        },
        Statement::Block(ds, ss) => {
            proof {
                lemma_block_view(ds@, ss@, *s);
            }
            out.append("{\n");
            let mut parts: Vec<String> = Vec::new();
            for k in 0..ds.len()
                invariant
                    text_ok(f),
                    depth < usize::MAX,
                    parts@.len() == k,
                    forall|j: int| 0 <= j < k ==> #[trigger] parts@[j]@ == indent((depth + 1) as nat) + decl_text(
                        f,
                        ds@[j]@,
                    ),
            {
                let mut line = indent_string(depth + 1);
                let d = show_declaration(&ds[k], f);
                line.append(d.as_str());
                parts.push(line);
            }
            assert(Seq::new(parts@.len(), |i: int| parts@[i]@) =~= decl_lines(f, decls_view(ds@), (depth + 1) as nat));
            stmt_strings(ss, depth + 1, f, &mut parts);
            append_joined(&mut out, &parts, "\n");
            out.append("\n");
            let p = indent_string(depth);
            out.append(p.as_str());
            out.append("}");
        },
    }
    out
}

/// The head of a procedure: its name and its parameters in parentheses.
pub open spec fn procedure_head(p: ProcedureV) -> Seq<char> {
    p.name + "("@ + joined(Seq::new(p.params.len(), |i: int| param_text(p.params[i])), ", "@) + ")"@
}

/// A procedure: its head, then its body as a block (a body that is not a
/// block is wrapped in braces).
pub open spec fn procedure_text<F: Fn(u64) -> String>(f: &F, p: ProcedureV, depth: nat) -> Seq<char> {
    let body = if p.body is Block {
        stmt_text(f, p.body, depth)
    } else {
        "{\n"@ + stmt_text(f, p.body, depth + 1) + "\n}"@
    };
    procedure_head(p) + body
}

/// Writes a procedure at indentation `depth`; see [`procedure_text`].
pub fn show_procedure<F: Fn(u64) -> String>(p: &Procedure, depth: usize, f: &F) -> (r: String)
    requires
        text_ok(f),
        depth + 1 + nesting(p.body@) <= usize::MAX,
    ensures
        r@ == procedure_text(f, p@, depth as nat),
{
    let mut parts: Vec<String> = Vec::new();
    for k in 0..p.params.len()
        invariant
            parts@.len() == k,
            forall|j: int| 0 <= j < k ==> #[trigger] parts@[j]@ == param_text(p.params@[j]@),
    {
        parts.push(show_parameter_declaration(&p.params[k]));
    }
    let ghost pv = p@;
    assert(Seq::new(parts@.len(), |i: int| parts@[i]@) =~= Seq::new(
        pv.params.len(),
        |i: int| param_text(pv.params[i]),
    ));
    let mut out = p.name.clone();
    out.append("(");
    append_joined(&mut out, &parts, ", ");
    out.append(")");
    match &p.body {
        Statement::Block(_, _) => {
            let b = show_statement(&p.body, depth, f);
            out.append(b.as_str());
        },
        other => {
            out.append("{\n");
            let b = show_statement(other, depth + 1, f);
            out.append(b.as_str());
            out.append("\n}");
        },
    }
    out
}

/// The procedures of a program, separated by blank lines.
pub open spec fn program_text<F: Fn(u64) -> String>(f: &F, p: ProgramV) -> Seq<char> {
    joined(Seq::new(p.procedures.len(), |i: int| procedure_text(f, p.procedures[i], 0)), "\n\n"@)
}

/// Writes a program; see [`program_text`].
pub fn show_program<F: Fn(u64) -> String>(p: &Program, f: &F) -> (r: String)
    requires
        text_ok(f),
        forall|i: int| 0 <= i < p.procedures@.len() ==> 1 + nesting(#[trigger] p.procedures@[i].body@) <= usize::MAX,
    ensures
        r@ == program_text(f, p@),
{
    let mut parts: Vec<String> = Vec::new();
    for k in 0..p.procedures.len()
        invariant
            text_ok(f),
            forall|i: int| 0 <= i < p.procedures@.len() ==> 1 + nesting(#[trigger] p.procedures@[i].body@) <= usize::MAX,
            parts@.len() == k,
            forall|j: int| 0 <= j < k ==> #[trigger] parts@[j]@ == procedure_text(f, p.procedures@[j]@, 0),
    {
        parts.push(show_procedure(&p.procedures[k], 0, f));
    }
    let ghost pv = p@;
    assert(Seq::new(parts@.len(), |i: int| parts@[i]@) =~= Seq::new(
        pv.procedures.len(),
        |i: int| procedure_text(f, pv.procedures[i], 0),
    ));
    let mut out = String::new();
    append_joined(&mut out, &parts, "\n\n");
    assert(out@ =~= program_text(f, p@));
    out
}

} // verus!

verus! {

/// A procedure printed at the outermost level always has a block for its
/// body: after its head come an opening brace and a line break, and the
/// text ends with a closing brace, whatever statement the body is.
pub proof fn lemma_procedure_body_is_block<F: Fn(u64) -> String>(f: &F, p: ProcedureV)
    ensures
        ({
            let t = procedure_text(f, p, 0);
            let h = procedure_head(p);
            &&& t.len() >= h.len() + 3
            &&& t.subrange(0, h.len() as int) == h
            &&& t[h.len() as int] == '{'
            &&& t[h.len() + 1int] == '\n'
            &&& t.last() == '}'
        }),
{
    reveal_strlit("{\n");
    reveal_strlit("\n}");
    reveal_strlit("\n");
    reveal_strlit("}");
    let h = procedure_head(p);
    let t = procedure_text(f, p, 0);
    assert(indent(0) =~= Seq::<char>::empty());
    let body = if p.body is Block {
        stmt_text(f, p.body, 0)
    } else {
        "{\n"@ + stmt_text(f, p.body, 1) + "\n}"@
    };
    assert(t == h + body);
    match p.body {
        StatementV::Block(ds, ss) => {
            let mid = joined(decl_lines(f, ds, 1) + stmt_lines(f, ss, 1), "\n"@);
            assert(body =~= "{\n"@ + mid + "\n"@ + "}"@);
        },
        _ => {},
    }
    assert(body[0] == '{' && body[1] == '\n' && body.last() == '}');
    assert(t.subrange(0, h.len() as int) =~= h);
    assert(t[h.len() as int] == body[0]);
    assert(t[h.len() + 1int] == body[1]);
}

} // verus!

verus! {

/// Which gate a gate is, without its angle.
pub open spec fn gate_kind(g: GateV) -> int {
    match g {
        GateV::Not => 0,
        GateV::H => 1,
        GateV::Rx(_) => 2,
        GateV::Ry(_) => 3,
        GateV::Rz(_) => 4,
        GateV::P(_) => 5,
    }
}

/// The kind of gate that a text names by its first two characters.
pub open spec fn kind_of_text(t: Seq<char>) -> int {
    if t[0] == 'n' {
        0
    } else if t[0] == 'H' {
        1
    } else if t[0] == 'P' {
        5
    } else if t[1] == 'x' {
        2
    } else if t[1] == 'y' {
        3
    } else {
        4
    }
}

proof fn lemma_gate_text_names_kind<F: Fn(u64) -> String>(f: &F, g: GateV)
    ensures
        gate_text(f, g).len() >= 1,
        kind_of_text(gate_text(f, g)) == gate_kind(g),
{
    reveal_strlit("not");
    reveal_strlit("H");
    reveal_strlit("Rx");
    reveal_strlit("Ry");
    reveal_strlit("Rz");
    reveal_strlit("P");
    reveal_strlit("(");
    reveal_strlit(")");
    let t = gate_text(f, g);
    match g {
        GateV::Not => {
            assert(t[0] == 'n');
        },
        GateV::H => {
            assert(t[0] == 'H');
        },
        GateV::Rx(e) => {
            assert(t[0] == 'R' && t[1] == 'x');
        },
        GateV::Ry(e) => {
            assert(t[0] == 'R' && t[1] == 'y');
        },
        GateV::Rz(e) => {
            assert(t[0] == 'R' && t[1] == 'z');
        },
        GateV::P(e) => {
            assert(t[0] == 'P');
        },
    }
}

/// The text of a gate tells which gate it is: two gates of different kinds
/// never have the same text.
pub proof fn lemma_gate_text_tells_gate<F: Fn(u64) -> String>(f: &F, g1: GateV, g2: GateV)
    requires
        gate_text(f, g1) == gate_text(f, g2),
    ensures
        gate_kind(g1) == gate_kind(g2),
{
    lemma_gate_text_names_kind(f, g1);
    lemma_gate_text_names_kind(f, g2);
}

} // verus!
