//! Abstract syntax of the quantum-classical language, with a mathematical
//! view of every node in which names are character sequences.
use vstd::prelude::*;

verus! {

/// Scalar types of the language.
#[derive(Debug, Clone, Copy, PartialEq, Eq, Structural)]
pub enum Type {
    Int,
    Float,
    Cbit,
    Qbit,
}

/// Expressions. A float literal is held as its IEEE-754 bit pattern.
#[derive(Debug)]
pub enum Exp {
    Int(i64),
    Float(u64),
    NamedConst(String),
    Lval(Lval),
    Unary(String, Box<Exp>),
    Binary(Box<Exp>, String, Box<Exp>),
    Builtin1(String, Box<Exp>),
    Builtin2(String, Box<Exp>, Box<Exp>),
}

/// Assignable locations: a variable or an array element.
#[derive(Debug)]
pub enum Lval {
    Var(String),
    Array(String, Box<Exp>),
}

#[derive(Debug)]
pub enum Statement {
    Assignment(Lval, Exp),
    QUpdate(QUpdate),
    ConditionalQUpdate(QUpdate, Lval),
    ProcedureCall(String, Vec<Lval>),
    Measure(Lval, Lval),
    If(Exp, Box<Statement>, Box<Statement>),
    While(Exp, Box<Statement>),
    Block(Vec<Declaration>, Vec<Statement>),
}

#[derive(Debug)]
pub enum Declaration {
    Uninit { ty: Type, lval: Lval },
    InitScalar { ty: Type, name: String, value: Exp },
    InitArray { ty: Type, name: String, size: Exp, values: Vec<Exp> },
}

#[derive(Debug)]
pub enum QUpdate {
    Gate(Gate, Lval),
    Swap(Lval, Lval),
}

#[derive(Debug)]
pub enum Gate {
    Not,
    H,
    Rx(Exp),
    Ry(Exp),
    Rz(Exp),
    P(Exp),
}

#[derive(Debug)]
pub struct Procedure {
    pub name: String,
    pub params: Vec<ParameterDeclaration>,
    pub body: Statement,
}

#[derive(Debug)]
pub enum ParameterDeclaration {
    Scalar { ty: Type, name: String },
    ArrayConst { ty: Type, name: String, size: i64 },
    ArrayVar { ty: Type, name: String, size: String },
}

#[derive(Debug)]
pub struct Program {
    pub procedures: Vec<Procedure>,
}

// ---------------------------------------------------------------------------
// Mathematical views
// ---------------------------------------------------------------------------

pub enum ExpV {
    Int(i64),
    Float(u64),
    NamedConst(Seq<char>),
    Lval(LvalV),
    Unary(Seq<char>, Box<ExpV>),
    Binary(Box<ExpV>, Seq<char>, Box<ExpV>),
    Builtin1(Seq<char>, Box<ExpV>),
    Builtin2(Seq<char>, Box<ExpV>, Box<ExpV>),
}

pub enum LvalV {
    Var(Seq<char>),
    Array(Seq<char>, Box<ExpV>),
}

pub enum StatementV {
    Assignment(LvalV, ExpV),
    QUpdate(QUpdateV),
    ConditionalQUpdate(QUpdateV, LvalV),
    ProcedureCall(Seq<char>, Seq<LvalV>),
    Measure(LvalV, LvalV),
    If(ExpV, Box<StatementV>, Box<StatementV>),
    While(ExpV, Box<StatementV>),
    Block(Seq<DeclarationV>, Seq<StatementV>),
}

pub enum DeclarationV {
    Uninit { ty: Type, lval: LvalV },
    InitScalar { ty: Type, name: Seq<char>, value: ExpV },
    InitArray { ty: Type, name: Seq<char>, size: ExpV, values: Seq<ExpV> },
}

pub enum QUpdateV {
    Gate(GateV, LvalV),
    Swap(LvalV, LvalV),
}

pub enum GateV {
    Not,
    H,
    Rx(ExpV),
    Ry(ExpV),
    Rz(ExpV),
    P(ExpV),
}

pub struct ProcedureV {
    pub name: Seq<char>,
    pub params: Seq<ParamV>,
    pub body: StatementV,
}

pub enum ParamV {
    Scalar { ty: Type, name: Seq<char> },
    ArrayConst { ty: Type, name: Seq<char>, size: i64 },
    ArrayVar { ty: Type, name: Seq<char>, size: Seq<char> },
}

pub struct ProgramV {
    pub procedures: Seq<ProcedureV>,
}

impl View for Exp {
    type V = ExpV;

    open spec fn view(&self) -> ExpV
        decreases self,
    {
        match self {
            Exp::Int(i) => ExpV::Int(*i),
            Exp::Float(f) => ExpV::Float(*f),
            Exp::NamedConst(s) => ExpV::NamedConst(s@),
            Exp::Lval(l) => ExpV::Lval(lval_view(l)),
            Exp::Unary(op, e) => ExpV::Unary(op@, Box::new((**e).view())),
            Exp::Binary(a, op, b) => ExpV::Binary(
                Box::new((**a).view()),
                op@,
                Box::new((**b).view()),
            ),
            Exp::Builtin1(f, e) => ExpV::Builtin1(f@, Box::new((**e).view())),
            Exp::Builtin2(f, a, b) => ExpV::Builtin2(
                f@,
                Box::new((**a).view()),
                Box::new((**b).view()),
            ),
        }
    }
}

pub open spec fn lval_view(l: &Lval) -> LvalV
    decreases l,
{
    match l {
        Lval::Var(n) => LvalV::Var(n@),
        Lval::Array(n, e) => LvalV::Array(n@, Box::new((**e).view())),
    }
}

impl View for Lval {
    type V = LvalV;

    open spec fn view(&self) -> LvalV {
        lval_view(self)
    }
}

pub open spec fn lvals_view(ls: Seq<Lval>) -> Seq<LvalV> {
    Seq::new(ls.len(), |i: int| ls[i]@)
}

pub open spec fn exps_view(es: Seq<Exp>) -> Seq<ExpV> {
    Seq::new(es.len(), |i: int| es[i]@)
}

impl View for Gate {
    type V = GateV;

    open spec fn view(&self) -> GateV {
        match self {
            Gate::Not => GateV::Not,
            Gate::H => GateV::H,
            Gate::Rx(e) => GateV::Rx(e@),
            Gate::Ry(e) => GateV::Ry(e@),
            Gate::Rz(e) => GateV::Rz(e@),
            Gate::P(e) => GateV::P(e@),
        }
    }
}

impl View for QUpdate {
    type V = QUpdateV;

    open spec fn view(&self) -> QUpdateV {
        match self {
            QUpdate::Gate(g, l) => QUpdateV::Gate(g@, l@),
            QUpdate::Swap(a, b) => QUpdateV::Swap(a@, b@),
        }
    }
}

impl View for Declaration {
    type V = DeclarationV;

    open spec fn view(&self) -> DeclarationV {
        match self {
            Declaration::Uninit { ty, lval } => DeclarationV::Uninit { ty: *ty, lval: lval@ },
            Declaration::InitScalar { ty, name, value } => DeclarationV::InitScalar {
                ty: *ty,
                name: name@,
                value: value@,
            },
            Declaration::InitArray { ty, name, size, values } => DeclarationV::InitArray {
                ty: *ty,
                name: name@,
                size: size@,
                values: exps_view(values@),
            },
        }
    }
}

pub open spec fn decls_view(ds: Seq<Declaration>) -> Seq<DeclarationV> {
    Seq::new(ds.len(), |i: int| ds[i]@)
}

pub open spec fn stmt_view(s: &Statement) -> StatementV
    decreases s,
{
    match s {
        Statement::Assignment(l, e) => StatementV::Assignment(l@, e@),
        Statement::QUpdate(q) => StatementV::QUpdate(q@),
        Statement::ConditionalQUpdate(q, c) => StatementV::ConditionalQUpdate(q@, c@),
        Statement::ProcedureCall(n, args) => StatementV::ProcedureCall(n@, lvals_view(args@)),
        Statement::Measure(q, c) => StatementV::Measure(q@, c@),
        Statement::If(e, t, f) => StatementV::If(
            e@,
            Box::new(stmt_view(&**t)),
            Box::new(stmt_view(&**f)),
        ),
        Statement::While(e, b) => StatementV::While(e@, Box::new(stmt_view(&**b))),
        Statement::Block(ds, ss) => StatementV::Block(
            decls_view(ds@),
            Seq::new(
                ss@.len(),
                |i: int|
                    if 0 <= i < ss@.len() {
                        stmt_view(&ss@[i])
                    } else {
                        StatementV::Block(Seq::empty(), Seq::empty())
                    },
            ),
        ),
    }
}

impl View for Statement {
    type V = StatementV;

    open spec fn view(&self) -> StatementV {
        stmt_view(self)
    }
}

pub open spec fn stmts_view(ss: Seq<Statement>) -> Seq<StatementV> {
    Seq::new(ss.len(), |i: int| ss[i]@)
}

/// The view of a block lists the views of its declarations and statements.
pub proof fn lemma_block_view(ds: Seq<Declaration>, ss: Seq<Statement>, s: Statement)
    requires
        s matches Statement::Block(d, st) && d@ == ds && st@ == ss,
    ensures
        s@ == StatementV::Block(decls_view(ds), stmts_view(ss)),
{
    assert(s@->Block_1 =~= stmts_view(ss));
}

impl View for ParameterDeclaration {
    type V = ParamV;

    open spec fn view(&self) -> ParamV {
        match self {
            ParameterDeclaration::Scalar { ty, name } => ParamV::Scalar { ty: *ty, name: name@ },
            ParameterDeclaration::ArrayConst { ty, name, size } => ParamV::ArrayConst {
                ty: *ty,
                name: name@,
                size: *size,
            },
            ParameterDeclaration::ArrayVar { ty, name, size } => ParamV::ArrayVar {
                ty: *ty,
                name: name@,
                size: size@,
            },
        }
    }
}

pub open spec fn params_view(ps: Seq<ParameterDeclaration>) -> Seq<ParamV> {
    Seq::new(ps.len(), |i: int| ps[i]@)
}

impl View for Procedure {
    type V = ProcedureV;

    open spec fn view(&self) -> ProcedureV {
        ProcedureV { name: self.name@, params: params_view(self.params@), body: self.body@ }
    }
}

pub open spec fn procs_view(ps: Seq<Procedure>) -> Seq<ProcedureV> {
    Seq::new(ps.len(), |i: int| ps[i]@)
}

impl View for Program {
    type V = ProgramV;

    open spec fn view(&self) -> ProgramV {
        ProgramV { procedures: procs_view(self.procedures@) }
    }
}

} // verus!

verus! {

// ---------------------------------------------------------------------------
// Copies and names
// ---------------------------------------------------------------------------

/// A copy of an expression.
pub fn copy_exp(e: &Exp) -> (r: Exp)
    ensures
        r@ == e@,
    decreases e,
{
    match e {
        Exp::Int(i) => Exp::Int(*i),
        Exp::Float(f) => Exp::Float(*f),
        Exp::NamedConst(s) => Exp::NamedConst(s.clone()),
        Exp::Lval(l) => Exp::Lval(copy_lval(l)),
        Exp::Unary(op, e1) => Exp::Unary(op.clone(), Box::new(copy_exp(e1))),
        Exp::Binary(e1, op, e2) => Exp::Binary(
            Box::new(copy_exp(e1)),
            op.clone(),
            Box::new(copy_exp(e2)),
        ),
        Exp::Builtin1(f, e1) => Exp::Builtin1(f.clone(), Box::new(copy_exp(e1))),
        Exp::Builtin2(f, e1, e2) => Exp::Builtin2(
            f.clone(),
            Box::new(copy_exp(e1)),
            Box::new(copy_exp(e2)),
        ),
    }
}

/// A copy of a location.
pub fn copy_lval(l: &Lval) -> (r: Lval)
    ensures
        r@ == l@,
    decreases l,
{
    match l {
        Lval::Var(n) => Lval::Var(n.clone()),
        Lval::Array(n, e) => Lval::Array(n.clone(), Box::new(copy_exp(e))),
    }
}

pub fn copy_exps(es: &Vec<Exp>) -> (r: Vec<Exp>)
    ensures
        exps_view(r@) == exps_view(es@),
{
    let mut r: Vec<Exp> = Vec::new();
    for i in 0..es.len()
        invariant
            r@.len() == i,
            forall|j: int| 0 <= j < i ==> r@[j]@ == es@[j]@,
    {
        r.push(copy_exp(&es[i]));
    }
    assert(exps_view(r@) =~= exps_view(es@));
    r
}

pub fn copy_lvals(ls: &Vec<Lval>) -> (r: Vec<Lval>)
    ensures
        lvals_view(r@) == lvals_view(ls@),
{
    let mut r: Vec<Lval> = Vec::new();
    for i in 0..ls.len()
        invariant
            r@.len() == i,
            forall|j: int| 0 <= j < i ==> r@[j]@ == ls@[j]@,
    {
        r.push(copy_lval(&ls[i]));
    }
    assert(lvals_view(r@) =~= lvals_view(ls@));
    r
}

pub fn copy_gate(g: &Gate) -> (r: Gate)
    ensures
        r@ == g@,
{
    match g {
        Gate::Not => Gate::Not,
        Gate::H => Gate::H,
        Gate::Rx(e) => Gate::Rx(copy_exp(e)),
        Gate::Ry(e) => Gate::Ry(copy_exp(e)),
        Gate::Rz(e) => Gate::Rz(copy_exp(e)),
        Gate::P(e) => Gate::P(copy_exp(e)),
    }
}

pub fn copy_qupdate(q: &QUpdate) -> (r: QUpdate)
    ensures
        r@ == q@,
{
    match q {
        QUpdate::Gate(g, l) => QUpdate::Gate(copy_gate(g), copy_lval(l)),
        QUpdate::Swap(a, b) => QUpdate::Swap(copy_lval(a), copy_lval(b)),
    }
}

pub fn copy_decl(d: &Declaration) -> (r: Declaration)
    ensures
        r@ == d@,
{
    match d {
        Declaration::Uninit { ty, lval } => Declaration::Uninit { ty: *ty, lval: copy_lval(lval) },
        Declaration::InitScalar { ty, name, value } => Declaration::InitScalar {
            ty: *ty,
            name: name.clone(),
            value: copy_exp(value),
        },
        Declaration::InitArray { ty, name, size, values } => Declaration::InitArray {
            ty: *ty,
            name: name.clone(),
            size: copy_exp(size),
            values: copy_exps(values),
        },
    }
}

pub fn copy_decls(ds: &Vec<Declaration>) -> (r: Vec<Declaration>)
    ensures
        decls_view(r@) == decls_view(ds@),
{
    let mut r: Vec<Declaration> = Vec::new();
    for i in 0..ds.len()
        invariant
            r@.len() == i,
            forall|j: int| 0 <= j < i ==> r@[j]@ == ds@[j]@,
    {
        r.push(copy_decl(&ds[i]));
    }
    assert(decls_view(r@) =~= decls_view(ds@));
    r
}

/// A copy of a statement.
pub fn copy_stmt(s: &Statement) -> (r: Statement)
    ensures
        r@ == s@,
    decreases s,
{
    match s {
        Statement::Assignment(l, e) => Statement::Assignment(copy_lval(l), copy_exp(e)),
        Statement::QUpdate(q) => Statement::QUpdate(copy_qupdate(q)),
        Statement::ConditionalQUpdate(q, c) => Statement::ConditionalQUpdate(
            copy_qupdate(q),
            copy_lval(c),
        ),
        Statement::ProcedureCall(n, args) => Statement::ProcedureCall(n.clone(), copy_lvals(args)),
        Statement::Measure(q, c) => Statement::Measure(copy_lval(q), copy_lval(c)),
        Statement::If(e, t, f) => Statement::If(
            copy_exp(e),
            Box::new(copy_stmt(t)),
            Box::new(copy_stmt(f)),
        ),
        Statement::While(e, b) => Statement::While(copy_exp(e), Box::new(copy_stmt(b))),
        Statement::Block(ds, ss) => {
            let ds2 = copy_decls(ds);
            let ss2 = copy_stmts(ss);
            let r = Statement::Block(ds2, ss2);
            proof {
                lemma_block_view(ds2@, ss2@, r);
                lemma_block_view(ds@, ss@, *s);
            }
            r
        },
    }
}

/// Copies of a sequence of statements.
pub fn copy_stmts(ss: &Vec<Statement>) -> (r: Vec<Statement>)
    ensures
        stmts_view(r@) == stmts_view(ss@),
    decreases ss,
{
    let mut ss2: Vec<Statement> = Vec::new();
    for i in 0..ss.len()
        invariant
            ss2@.len() == i,
            forall|j: int| 0 <= j < i ==> ss2@[j]@ == ss@[j]@,
    {
        proof {
            assert(decreases_to!(ss => ss@));
            assert(decreases_to!(ss@ => ss@[i as int]));
        }
        ss2.push(copy_stmt(&ss[i]));
    }
    assert(stmts_view(ss2@) =~= stmts_view(ss@));
    ss2
}

pub fn copy_param(p: &ParameterDeclaration) -> (r: ParameterDeclaration)
    ensures
        r@ == p@,
{
    match p {
        ParameterDeclaration::Scalar { ty, name } => ParameterDeclaration::Scalar {
            ty: *ty,
            name: name.clone(),
        },
        ParameterDeclaration::ArrayConst { ty, name, size } => ParameterDeclaration::ArrayConst {
            ty: *ty,
            name: name.clone(),
            size: *size,
        },
        ParameterDeclaration::ArrayVar { ty, name, size } => ParameterDeclaration::ArrayVar {
            ty: *ty,
            name: name.clone(),
            size: size.clone(),
        },
    }
}

pub fn copy_params(ps: &Vec<ParameterDeclaration>) -> (r: Vec<ParameterDeclaration>)
    ensures
        params_view(r@) == params_view(ps@),
{
    let mut r: Vec<ParameterDeclaration> = Vec::new();
    for i in 0..ps.len()
        invariant
            r@.len() == i,
            forall|j: int| 0 <= j < i ==> r@[j]@ == ps@[j]@,
    {
        r.push(copy_param(&ps[i]));
    }
    assert(params_view(r@) =~= params_view(ps@));
    r
}

/// A copy of a procedure.
pub fn copy_procedure(p: &Procedure) -> (r: Procedure)
    ensures
        r@ == p@,
{
    Procedure { name: p.name.clone(), params: copy_params(&p.params), body: copy_stmt(&p.body) }
}

/// The name a location writes to.
pub open spec fn lval_name_of(l: LvalV) -> Seq<char> {
    match l {
        LvalV::Var(n) => n,
        LvalV::Array(n, _) => n,
    }
}

/// The name a declaration introduces.
pub open spec fn decl_name_of(d: DeclarationV) -> Seq<char> {
    match d {
        DeclarationV::Uninit { lval, .. } => lval_name_of(lval),
        DeclarationV::InitScalar { name, .. } => name,
        DeclarationV::InitArray { name, .. } => name,
    }
}

/// The name a parameter declares.
pub open spec fn param_name_of(p: ParamV) -> Seq<char> {
    match p {
        ParamV::Scalar { name, .. } => name,
        ParamV::ArrayConst { name, .. } => name,
        ParamV::ArrayVar { name, .. } => name,
    }
}

/// The name a location writes to.
pub fn lval_name(l: &Lval) -> (r: String)
    ensures
        r@ == lval_name_of(l@),
{
    match l {
        Lval::Var(n) => n.clone(),
        Lval::Array(n, _) => n.clone(),
    }
}

/// The name a declaration introduces.
pub fn decl_name(d: &Declaration) -> (r: &String)
    ensures
        r@ == decl_name_of(d@),
{
    match d {
        Declaration::Uninit { lval, .. } => match lval {
            Lval::Var(name) => name,
            Lval::Array(name, _) => name,
        },
        Declaration::InitScalar { name, .. } => name,
        Declaration::InitArray { name, .. } => name,
    }
}

/// The name a parameter declares.
pub fn param_name(p: &ParameterDeclaration) -> (r: String)
    ensures
        r@ == param_name_of(p@),
{
    match p {
        ParameterDeclaration::Scalar { name, .. } => name.clone(),
        ParameterDeclaration::ArrayConst { name, .. } => name.clone(),
        ParameterDeclaration::ArrayVar { name, .. } => name.clone(),
    }
}

} // verus!
