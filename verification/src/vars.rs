//! Sets of names, and the names a statement reads or writes.
use vstd::prelude::*;
use crate::ast::{
    Exp,
    ExpV,
    Lval,
    LvalV,
    QUpdate,
    QUpdateV,
    Statement,
    StatementV,
    decls_view,
    lemma_block_view,
    lvals_view,
    stmts_view,
};
use crate::text::text_eq;

verus! {

/// A finite set of names.
pub struct NameSet {
    names: Vec<String>,
}

impl View for NameSet {
    type V = Set<Seq<char>>;

    closed spec fn view(&self) -> Set<Seq<char>> {
        Set::new(|k: Seq<char>| exists|i: int| 0 <= i < self.names@.len() && self.names@[i]@ == k)
    }
}

impl NameSet {
    /// No name is held twice.
    #[verifier::type_invariant]
    spec fn distinct(self) -> bool {
        forall|i: int, j: int| 0 <= i < j < self.names@.len() ==> self.names@[i]@ != self.names@[j]@
    }

    pub fn new() -> (r: Self)
        ensures
            r@ == Set::<Seq<char>>::empty(),
    {
        let r = NameSet { names: Vec::new() };
        assert(r@ =~= Set::<Seq<char>>::empty());
        r
    }

    /// Whether `name` is in the set.
    pub fn contains(&self, name: &str) -> (r: bool)
        ensures
            r == self@.contains(name@),
    {
        let mut i: usize = 0;
        while i < self.names.len()
            invariant
                i <= self.names@.len(),
                forall|j: int| 0 <= j < i ==> self.names@[j]@ != name@,
            decreases self.names@.len() - i,
        {
            if text_eq(self.names[i].as_str(), name) {
                return true;
            }
            i = i + 1;
        }
        false
    }

    /// Adds a name.
    pub fn insert(&mut self, name: String)
        ensures
            final(self)@ == old(self)@.insert(name@),
    {
        proof {
            use_type_invariant(&*self);
        }
        if !self.contains(name.as_str()) {
            let ghost n0 = self.names@;
            assert forall|i: int| 0 <= i < n0.len() implies n0[i]@ != name@ by {
                if n0[i]@ == name@ {
                    assert(old(self)@.contains(name@));
                }
            }
            let mut names: Vec<String> = Vec::new();
            std::mem::swap(&mut names, &mut self.names);
            names.push(name);
            self.names = names;
            assert forall|k: Seq<char>| #[trigger] final(self)@.contains(k) <==> old(self)@.insert(
                name@,
            ).contains(k) by {
                if final(self)@.contains(k) {
                    let i = choose|i: int|
                        0 <= i < self.names@.len() && self.names@[i]@ == k;
                    if i < n0.len() {
                        assert(n0[i]@ == k);
                    }
                }
                if old(self)@.contains(k) {
                    let i = choose|i: int| 0 <= i < n0.len() && n0[i]@ == k;
                    assert(self.names@[i]@ == k);
                }
                if k == name@ {
                    assert(self.names@[n0.len() as int]@ == k);
                }
            }
            assert(final(self)@ =~= old(self)@.insert(name@));
        } else {
            assert(old(self)@.insert(name@) =~= old(self)@);
        }
    }

    /// Adds every name of another set.
    pub fn extend(&mut self, other: NameSet)
        ensures
            final(self)@ == old(self)@.union(other@),
    {
        let mut i: usize = 0;
        while i < other.names.len()
            invariant
                i <= other.names@.len(),
                self@ == old(self)@.union(names_upto(other.names@, i as int)),
            decreases other.names@.len() - i,
        {
            let ghost s0 = self@;
            self.insert(other.names[i].clone());
            i = i + 1;
            assert forall|k: Seq<char>| #[trigger] names_upto(other.names@, i as int).contains(k)
                <==> (names_upto(other.names@, i - 1).contains(k) || k == other.names@[i
                - 1]@) by {
                if names_upto(other.names@, i as int).contains(k) {
                    let j = choose|j: int| 0 <= j < i && other.names@[j]@ == k;
                    if j < i - 1 {
                        assert(names_upto(other.names@, i - 1).contains(k));
                    }
                }
                if k == other.names@[i - 1]@ {
                    assert(0 <= i - 1 < i && other.names@[i - 1]@ == k);
                }
            }
            assert(self@ =~= old(self)@.union(names_upto(other.names@, i as int)));
        }
        assert(other@ =~= names_upto(other.names@, i as int));
    }

    /// The names, each once, in the order they were first added.
    pub fn to_vec(&self) -> (r: Vec<String>)
        ensures
            forall|k: Seq<char>| self@.contains(k) <==> exists|i: int| 0 <= i < r@.len() && r@[i]@ == k,
            forall|i: int, j: int| 0 <= i < j < r@.len() ==> r@[i]@ != r@[j]@,
    {
        proof {
            use_type_invariant(self);
        }
        let mut r: Vec<String> = Vec::new();
        for i in 0..self.names.len()
            invariant
                r@.len() == i,
                forall|j: int| 0 <= j < i ==> r@[j]@ == self.names@[j]@,
        {
            r.push(self.names[i].clone());
        }
        assert forall|k: Seq<char>| self@.contains(k) <==> exists|i: int|
            0 <= i < r@.len() && r@[i]@ == k by {
            if self@.contains(k) {
                let i = choose|i: int| 0 <= i < self.names@.len() && self.names@[i]@ == k;
                assert(r@[i]@ == k);
            }
            if exists|i: int| 0 <= i < r@.len() && r@[i]@ == k {
                let i = choose|i: int| 0 <= i < r@.len() && r@[i]@ == k;
                assert(self.names@[i]@ == k);
            }
        }
        r
    }
}

/// The names among the first `n` strings of `v`.
pub open spec fn names_upto(v: Seq<String>, n: int) -> Set<Seq<char>> {
    Set::new(|k: Seq<char>| exists|j: int| 0 <= j < n && v[j]@ == k)
}

/// The names an expression reads.
pub open spec fn exp_vars(e: ExpV) -> Set<Seq<char>>
    decreases e,
{
    match e {
        ExpV::Int(_) | ExpV::Float(_) | ExpV::NamedConst(_) => Set::empty(),
        ExpV::Lval(l) => lval_vars(l),
        ExpV::Unary(_, e1) => exp_vars(*e1),
        ExpV::Binary(e1, _, e2) => exp_vars(*e1).union(exp_vars(*e2)),
        ExpV::Builtin1(_, e1) => exp_vars(*e1),
        ExpV::Builtin2(_, e1, e2) => exp_vars(*e1).union(exp_vars(*e2)),
    }
}

/// The array or variable name of a location, with the names its index reads.
pub open spec fn lval_vars(l: LvalV) -> Set<Seq<char>>
    decreases l,
{
    match l {
        LvalV::Var(n) => set![n],
        LvalV::Array(n, idx) => set![n].union(exp_vars(*idx)),
    }
}

pub open spec fn lvals_vars(ls: Seq<LvalV>) -> Set<Seq<char>> {
    Set::new(|k: Seq<char>| exists|i: int| 0 <= i < ls.len() && lval_vars(ls[i]).contains(k))
}

/// The names a statement uses: those of its locations and expressions, in
/// every nested statement. A block's declarations add no names, and in a
/// controlled gate only the control counts.
pub open spec fn stmt_vars(s: StatementV) -> Set<Seq<char>>
    decreases s,
{
    match s {
        StatementV::Assignment(l, e) => lval_vars(l).union(exp_vars(e)),
        StatementV::Block(_, ss) => stmts_vars(ss),
        StatementV::If(c, t, f) => exp_vars(c).union(stmt_vars(*t)).union(stmt_vars(*f)),
        StatementV::While(c, b) => exp_vars(c).union(stmt_vars(*b)),
        StatementV::ProcedureCall(_, args) => lvals_vars(args),
        StatementV::QUpdate(q) => match q {
            QUpdateV::Gate(_, l) => lval_vars(l),
            QUpdateV::Swap(a, b) => lval_vars(a).union(lval_vars(b)),
        },
        StatementV::ConditionalQUpdate(_, l) => lval_vars(l),
        StatementV::Measure(q, c) => lval_vars(q).union(lval_vars(c)),
    }
}

/// The names a sequence of statements uses.
pub open spec fn stmts_vars(ss: Seq<StatementV>) -> Set<Seq<char>>
    decreases ss,
{
    if ss.len() == 0 {
        Set::empty()
    } else {
        stmts_vars(ss.drop_last()).union(stmt_vars(ss.last()))
    }
}

fn collect_lval_vars(l: &Lval, used: &mut NameSet)
    ensures
        final(used)@ == old(used)@.union(lval_vars(l@)),
    decreases l,
{
    match l {
        Lval::Var(name) => {
            used.insert(name.clone());
            assert(final(used)@ =~= old(used)@.union(lval_vars(l@)));
        },
        Lval::Array(name, idx) => {
            used.insert(name.clone());
            collect_exp_vars(idx, used);
            assert(final(used)@ =~= old(used)@.union(lval_vars(l@)));
        },
    }
}

fn collect_exp_vars(e: &Exp, used: &mut NameSet)
    ensures
        final(used)@ == old(used)@.union(exp_vars(e@)),
    decreases e,
{
    match e {
        Exp::Int(_) | Exp::Float(_) | Exp::NamedConst(_) => {
            assert(final(used)@ =~= old(used)@.union(exp_vars(e@)));
        },
        Exp::Lval(l) => collect_lval_vars(l, used),
        Exp::Unary(_, e1) => collect_exp_vars(e1, used),
        Exp::Binary(e1, _, e2) => {
            collect_exp_vars(e1, used);
            collect_exp_vars(e2, used);
            assert(final(used)@ =~= old(used)@.union(exp_vars(e@)));
        },
        Exp::Builtin1(_, e1) => collect_exp_vars(e1, used),
        Exp::Builtin2(_, e1, e2) => {
            collect_exp_vars(e1, used);
            collect_exp_vars(e2, used);
            assert(final(used)@ =~= old(used)@.union(exp_vars(e@)));
        },
    }
}

fn collect_args_vars(args: &Vec<Lval>, used: &mut NameSet)
    ensures
        final(used)@ == old(used)@.union(lvals_vars(lvals_view(args@))),
{
    let ghost ls = lvals_view(args@);
    let ghost u_start = used@;
    for i in 0..args.len()
        invariant
            ls == lvals_view(args@),
            used@ == u_start.union(
                Set::new(
                    |k: Seq<char>| exists|j: int| 0 <= j < i && #[trigger] lval_vars(ls[j]).contains(k),
                ),
            ),
    {
        let ghost u0 = used@;
        collect_lval_vars(&args[i], used);
        assert(used@ =~= u_start.union(
            Set::new(
                |k: Seq<char>| exists|j: int| 0 <= j < i + 1 && #[trigger] lval_vars(ls[j]).contains(k),
            ),
        )) by {
            assert forall|k: Seq<char>|
                #![trigger used@.contains(k)]
                used@.contains(k) && !u_start.contains(k) implies exists|j: int|
                0 <= j < i + 1 && #[trigger] lval_vars(ls[j]).contains(k) by {
                if lval_vars(ls[i as int]).contains(k) {
                } else {
                    assert(u0.contains(k));
                }
            }
        }
    }
    assert(used@ =~= u_start.union(lvals_vars(ls)));
}

/// The names a sequence of statements uses.
pub fn used_vars_all(stats: &Vec<Statement>) -> (r: NameSet)
    ensures
        r@ == stmts_vars(stmts_view(stats@)),
    decreases stats,
{
    let ghost ss = stmts_view(stats@);
    let mut used = NameSet::new();
    for i in 0..stats.len()
        invariant
            ss == stmts_view(stats@),
            used@ == stmts_vars(ss.take(i as int)),
    {
        proof {
            assert(decreases_to!(stats => stats@));
            assert(decreases_to!(stats@ => stats@[i as int]));
        }
        let inner = used_vars(&stats[i]);
        used.extend(inner);
        assert(ss.take(i + 1).drop_last() =~= ss.take(i as int));
    }
    assert(ss.take(stats.len() as int) =~= ss);
    used
}

/// The names a statement uses; see [`stmt_vars`].
pub fn used_vars(s: &Statement) -> (r: NameSet)
    ensures
        r@ == stmt_vars(s@),
    decreases s,
{
    let mut used = NameSet::new();
    match s {
        Statement::Assignment(l, e) => {
            collect_lval_vars(l, &mut used);
            collect_exp_vars(e, &mut used);
        },
        Statement::Block(ds, stats) => {
            proof {
                lemma_block_view(ds@, stats@, *s);
            }
            used = used_vars_all(stats);
            assert(s@ == StatementV::Block(decls_view(ds@), stmts_view(stats@)));
            assert(used@ =~= stmt_vars(s@));
        },
        Statement::If(cond, t, f) => {
            collect_exp_vars(cond, &mut used);
            used.extend(used_vars(t));
            used.extend(used_vars(f));
        },
        Statement::While(cond, body) => {
            collect_exp_vars(cond, &mut used);
            used.extend(used_vars(body));
        },
        Statement::ProcedureCall(_, args) => {
            collect_args_vars(args, &mut used);
            assert(used@ =~= stmt_vars(s@));
        },
        Statement::QUpdate(q) => match q {
            QUpdate::Gate(_, l) => collect_lval_vars(l, &mut used),
            QUpdate::Swap(a, b) => {
                collect_lval_vars(a, &mut used);
                collect_lval_vars(b, &mut used);
            },
        },
        Statement::ConditionalQUpdate(_, l) => collect_lval_vars(l, &mut used),
        Statement::Measure(q, c) => {
            collect_lval_vars(q, &mut used);
            collect_lval_vars(c, &mut used);
        },
    }
    assert(used@ =~= stmt_vars(s@));
    used
}

} // verus!
