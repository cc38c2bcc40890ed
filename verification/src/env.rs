//! A stack of scopes that maps names to optional values.
//!
//! Each scope maps a name to `Some(value)` or to `None` (a name that is
//! declared but holds no known value). Lookups search from the innermost
//! scope outwards.
use vstd::prelude::*;
use crate::text::{text_eq, decimal, push_decimal};

verus! {

/// Values that can be copied with a contract on the copy.
pub trait DeepCopy: View + Sized {
    fn deep_copy(&self) -> (r: Self)
        ensures
            r@ == self@,
    ;
}

/// One scope: the entries in the order they were made; no name occurs twice.
pub type Entries<T> = Vec<(String, Option<T>)>;

pub struct Env<T> {
    scopes: Vec<Entries<T>>,
}

pub open spec fn opt_view<T: View>(o: Option<T>) -> Option<T::V> {
    match o {
        Some(v) => Some(v@),
        None => None,
    }
}

pub open spec fn names_distinct<T>(s: Seq<(String, Option<T>)>) -> bool {
    forall|i: int, j: int| 0 <= i < j < s.len() ==> s[i].0@ != s[j].0@
}

pub open spec fn has_name<T>(s: Seq<(String, Option<T>)>, k: Seq<char>) -> bool {
    exists|j: int| 0 <= j < s.len() && s[j].0@ == k
}

/// The map that a scope's entries denote.
pub open spec fn scope_map<T: View>(s: Seq<(String, Option<T>)>) -> Map<Seq<char>, Option<T::V>> {
    Map::new(
        |k: Seq<char>| has_name(s, k),
        |k: Seq<char>| opt_view(s[choose|j: int| 0 <= j < s.len() && s[j].0@ == k].1),
    )
}

/// The map built by entering the given entries in order; a later entry for a
/// name replaces an earlier one.
pub open spec fn entries_map<T: View>(s: Seq<(String, Option<T>)>) -> Map<Seq<char>, Option<T::V>>
    decreases s.len(),
{
    if s.len() == 0 {
        Map::empty()
    } else {
        entries_map(s.drop_last()).insert(s.last().0@, opt_view(s.last().1))
    }
}

/// The innermost scope below `n` that declares `name`.
pub open spec fn find_scope<V>(m: Seq<Map<Seq<char>, Option<V>>>, name: Seq<char>, n: int) -> Option<
    int,
>
    decreases n,
{
    if n <= 0 {
        None
    } else if m[n - 1].dom().contains(name) {
        Some(n - 1)
    } else {
        find_scope(m, name, n - 1)
    }
}

/// The innermost scope below `n` in which `name` holds a value.
pub open spec fn find_value<V>(m: Seq<Map<Seq<char>, Option<V>>>, name: Seq<char>, n: int) -> Option<
    int,
>
    decreases n,
{
    if n <= 0 {
        None
    } else if m[n - 1].dom().contains(name) && m[n - 1][name] is Some {
        Some(n - 1)
    } else {
        find_value(m, name, n - 1)
    }
}

/// The value that a lookup of `name` finds: that of the innermost scope in
/// which the name holds a value.
pub open spec fn lookup<V>(m: Seq<Map<Seq<char>, Option<V>>>, name: Seq<char>) -> Option<V> {
    match find_value(m, name, m.len() as int) {
        Some(i) => m[i][name],
        None => None,
    }
}

/// Whether some scope declares `name`.
pub open spec fn declares<V>(m: Seq<Map<Seq<char>, Option<V>>>, name: Seq<char>) -> bool {
    exists|i: int| 0 <= i < m.len() && #[trigger] m[i].dom().contains(name)
}

/// Sets `name` in the innermost scope that declares it, if any.
pub open spec fn assign<V>(m: Seq<Map<Seq<char>, Option<V>>>, name: Seq<char>, v: Option<V>) -> Seq<
    Map<Seq<char>, Option<V>>,
> {
    match find_scope(m, name, m.len() as int) {
        Some(i) => m.update(i, m[i].insert(name, v)),
        None => m,
    }
}

/// Enters `name` into the innermost scope, if there is one.
pub open spec fn declare<V>(m: Seq<Map<Seq<char>, Option<V>>>, name: Seq<char>, v: Option<V>) -> Seq<
    Map<Seq<char>, Option<V>>,
> {
    if m.len() == 0 {
        m
    } else {
        m.update(m.len() - 1, m.last().insert(name, v))
    }
}

/// Removes `name` from every scope from the innermost one down to the one in
/// which it holds a value (down to the outermost when it holds none).
pub open spec fn withdraw<V>(m: Seq<Map<Seq<char>, Option<V>>>, name: Seq<char>) -> Seq<
    Map<Seq<char>, Option<V>>,
> {
    let k = match find_value(m, name, m.len() as int) {
        Some(i) => i,
        None => 0,
    };
    Seq::new(m.len(), |i: int| if i >= k { m[i].remove(name) } else { m[i] })
}

proof fn lemma_scope_map_at<T: View>(s: Seq<(String, Option<T>)>, j: int)
    requires
        names_distinct(s),
        0 <= j < s.len(),
    ensures
        scope_map(s).dom().contains(s[j].0@),
        scope_map(s)[s[j].0@] == opt_view(s[j].1),
{
    let k = s[j].0@;
    assert(has_name(s, k));
    let c = choose|i: int| 0 <= i < s.len() && s[i].0@ == k;
    assert(c == j);
}

proof fn lemma_scope_map_push<T: View>(s: Seq<(String, Option<T>)>, e: (String, Option<T>))
    requires
        names_distinct(s),
        !has_name(s, e.0@),
    ensures
        names_distinct(s.push(e)),
        scope_map(s.push(e)) =~= scope_map(s).insert(e.0@, opt_view(e.1)),
{
    let t = s.push(e);
    assert forall|k: Seq<char>| #[trigger] scope_map(t).dom().contains(k) <==> scope_map(
        s,
    ).insert(e.0@, opt_view(e.1)).dom().contains(k) by {
        if has_name(t, k) {
            let j = choose|j: int| 0 <= j < t.len() && t[j].0@ == k;
            if j < s.len() {
                assert(s[j].0@ == k);
            }
        }
        if has_name(s, k) {
            let j = choose|j: int| 0 <= j < s.len() && s[j].0@ == k;
            assert(t[j].0@ == k);
        }
        if k == e.0@ {
            assert(t[s.len() as int].0@ == k);
        }
    }
    assert(names_distinct(t));
    assert forall|k: Seq<char>| #[trigger] scope_map(t).dom().contains(k) implies scope_map(t)[k]
        == scope_map(s).insert(e.0@, opt_view(e.1))[k] by {
        let j = choose|j: int| 0 <= j < t.len() && t[j].0@ == k;
        lemma_scope_map_at(t, j);
        if j < s.len() {
            assert(s[j] == t[j]);
            lemma_scope_map_at(s, j);
        }
    }
}

proof fn lemma_scope_map_update<T: View>(s: Seq<(String, Option<T>)>, j: int, v: Option<T>)
    requires
        names_distinct(s),
        0 <= j < s.len(),
    ensures
        names_distinct(s.update(j, (s[j].0, v))),
        scope_map(s.update(j, (s[j].0, v))) =~= scope_map(s).insert(s[j].0@, opt_view(v)),
{
    let t = s.update(j, (s[j].0, v));
    assert(names_distinct(t));
    assert forall|k: Seq<char>| #[trigger] scope_map(t).dom().contains(k) <==> scope_map(
        s,
    ).insert(s[j].0@, opt_view(v)).dom().contains(k) by {
        if has_name(t, k) {
            let i = choose|i: int| 0 <= i < t.len() && t[i].0@ == k;
            assert(s[i].0@ == k);
        }
        if has_name(s, k) {
            let i = choose|i: int| 0 <= i < s.len() && s[i].0@ == k;
            assert(t[i].0@ == k);
        }
        if k == s[j].0@ {
            assert(t[j].0@ == k);
        }
    }
    assert forall|k: Seq<char>| #[trigger] scope_map(t).dom().contains(k) implies scope_map(t)[k]
        == scope_map(s).insert(s[j].0@, opt_view(v))[k] by {
        let i = choose|i: int| 0 <= i < t.len() && t[i].0@ == k;
        lemma_scope_map_at(t, i);
        if i != j {
            lemma_scope_map_at(s, i);
        }
    }
}

proof fn lemma_scope_map_update_any<T: View>(s: Seq<(String, Option<T>)>, j: int)
    requires
        names_distinct(s),
        0 <= j < s.len(),
    ensures
        forall|v: Option<T>|
            #![trigger s.update(j, (s[j].0, v))]
            names_distinct(s.update(j, (s[j].0, v))) && scope_map(s.update(j, (s[j].0, v)))
                == scope_map(s).insert(s[j].0@, opt_view(v)),
{
    assert forall|v: Option<T>|
        #![trigger s.update(j, (s[j].0, v))]
        names_distinct(s.update(j, (s[j].0, v))) && scope_map(s.update(j, (s[j].0, v)))
            == scope_map(s).insert(s[j].0@, opt_view(v)) by {
        lemma_scope_map_update(s, j, v);
    }
}

/// The scope in which a search among the first `n` scopes finds a value is
/// one of them, and it holds a value for the name.
pub proof fn lemma_find_value_range<V>(m: Seq<Map<Seq<char>, Option<V>>>, name: Seq<char>, n: int)
    ensures
        find_value(m, name, n) matches Some(i) ==> 0 <= i < n && m[i].dom().contains(name)
            && m[i][name] is Some,
    decreases n,
{
    if n > 0 {
        lemma_find_value_range(m, name, n - 1);
    }
}

proof fn lemma_scope_map_remove<T: View>(s: Seq<(String, Option<T>)>, j: int)
    requires
        names_distinct(s),
        0 <= j < s.len(),
    ensures
        names_distinct(s.remove(j)),
        scope_map(s.remove(j)) =~= scope_map(s).remove(s[j].0@),
{
    let t = s.remove(j);
    assert forall|a: int, b: int| 0 <= a < b < t.len() implies t[a].0@ != t[b].0@ by {
        let a2 = if a < j { a } else { a + 1 };
        let b2 = if b < j { b } else { b + 1 };
        assert(t[a] == s[a2]);
        assert(t[b] == s[b2]);
    }
    assert forall|k: Seq<char>| #[trigger] scope_map(t).dom().contains(k) <==> scope_map(
        s,
    ).remove(s[j].0@).dom().contains(k) by {
        if has_name(t, k) {
            let i = choose|i: int| 0 <= i < t.len() && t[i].0@ == k;
            let i2 = if i < j { i } else { i + 1 };
            assert(t[i] == s[i2]);
            assert(s[i2].0@ == k);
        }
        if has_name(s, k) && k != s[j].0@ {
            let i = choose|i: int| 0 <= i < s.len() && s[i].0@ == k;
            assert(i != j);
            let i2 = if i < j { i } else { i - 1 };
            assert(t[i2] == s[i]);
        }
    }
    assert forall|k: Seq<char>| #[trigger] scope_map(t).dom().contains(k) implies scope_map(t)[k]
        == scope_map(s).remove(s[j].0@)[k] by {
        let i = choose|i: int| 0 <= i < t.len() && t[i].0@ == k;
        lemma_scope_map_at(t, i);
        let i2 = if i < j { i } else { i + 1 };
        assert(t[i] == s[i2]);
        lemma_scope_map_at(s, i2);
    }
}

proof fn lemma_scope_map_empty<T: View>(s: Seq<(String, Option<T>)>)
    requires
        s.len() == 0,
    ensures
        scope_map(s) =~= Map::<Seq<char>, Option<T::V>>::empty(),
{
}

/// Finds the entry for `name` in one scope.
fn find_entry<T: View>(scope: &Entries<T>, name: &str) -> (r: Option<usize>)
    ensures
        r matches Some(j) ==> j < scope@.len() && scope@[j as int].0@ == name@,
        r is None ==> !has_name(scope@, name@),
{
    let mut j: usize = 0;
    while j < scope.len()
        invariant
            j <= scope@.len(),
            forall|i: int| 0 <= i < j ==> scope@[i].0@ != name@,
        decreases scope@.len() - j,
    {
        if text_eq(scope[j].0.as_str(), name) {
            return Some(j);
        }
        j = j + 1;
    }
    None
}

/// Enters `name` into a scope, replacing an entry of the same name.
fn scope_set<T: View>(scope: &mut Entries<T>, name: String, val: Option<T>)
    requires
        names_distinct(old(scope)@),
    ensures
        names_distinct(final(scope)@),
        scope_map(final(scope)@) == scope_map(old(scope)@).insert(name@, opt_view(val)),
{
    match find_entry(scope, name.as_str()) {
        Some(j) => {
            proof {
                lemma_scope_map_update(scope@, j as int, val);
            }
            let ghost s0 = scope@;
            let n = scope[j].0.clone();
            scope.set(j, (n, val));
            assert(scope@ =~= s0.update(j as int, (s0[j as int].0, val)));
        },
        None => {
            proof {
                lemma_scope_map_push(scope@, (name, val));
            }
            scope.push((name, val));
        },
    }
}

impl<T: View> View for Env<T> {
    type V = Seq<Map<Seq<char>, Option<T::V>>>;

    closed spec fn view(&self) -> Self::V {
        Seq::new(self.scopes@.len(), |i: int| scope_map(self.scopes@[i]@))
    }
}

impl<T: View> Env<T> {
    /// No scope names a variable twice.
    pub closed spec fn wf(&self) -> bool {
        forall|i: int| 0 <= i < self.scopes@.len() ==> names_distinct(#[trigger] self.scopes@[i]@)
    }

    /// An environment with one empty scope.
    pub fn new() -> (r: Self)
        ensures
            r.wf(),
            r@ == seq![Map::<Seq<char>, Option<T::V>>::empty()],
    {
        let mut scopes: Vec<Entries<T>> = Vec::new();
        scopes.push(Vec::new());
        let r = Env { scopes };
        proof {
            lemma_scope_map_empty(r.scopes@[0]@);
        }
        assert(r@ =~= seq![Map::<Seq<char>, Option<T::V>>::empty()]);
        r
    }

    /// The number of scopes.
    pub fn currect_scope(&self) -> (r: usize)
        ensures
            r == self@.len(),
    {
        self.scopes.len()
    }

    fn find_scope_index(&self, name: &str) -> (r: Option<(usize, usize)>)
        requires
            self.wf(),
        ensures
            match r {
                Some((i, j)) => {
                    &&& find_scope(self@, name@, self@.len() as int) == Some(i as int)
                    &&& i < self.scopes@.len()
                    &&& j < self.scopes@[i as int]@.len()
                    &&& self.scopes@[i as int]@[j as int].0@ == name@
                },
                None => find_scope(self@, name@, self@.len() as int) is None,
            },
    {
        let mut i = self.scopes.len();
        while i > 0
            invariant
                self.wf(),
                i <= self.scopes@.len(),
                find_scope(self@, name@, self@.len() as int) == find_scope(self@, name@, i as int),
            decreases i,
        {
            i = i - 1;
            match find_entry(&self.scopes[i], name) {
                Some(j) => {
                    proof {
                        lemma_scope_map_at(self.scopes@[i as int]@, j as int);
                    }
                    return Some((i, j));
                },
                None => {},
            }
        }
        None
    }

    fn find_value_index(&self, name: &str) -> (r: Option<(usize, usize)>)
        requires
            self.wf(),
        ensures
            match r {
                Some((i, j)) => {
                    &&& find_value(self@, name@, self@.len() as int) == Some(i as int)
                    &&& i < self.scopes@.len()
                    &&& j < self.scopes@[i as int]@.len()
                    &&& self.scopes@[i as int]@[j as int].0@ == name@
                    &&& self.scopes@[i as int]@[j as int].1 is Some
                },
                None => find_value(self@, name@, self@.len() as int) is None,
            },
    {
        let mut i = self.scopes.len();
        while i > 0
            invariant
                self.wf(),
                i <= self.scopes@.len(),
                find_value(self@, name@, self@.len() as int) == find_value(self@, name@, i as int),
            decreases i,
        {
            i = i - 1;
            match find_entry(&self.scopes[i], name) {
                Some(j) => {
                    proof {
                        lemma_scope_map_at(self.scopes@[i as int]@, j as int);
                    }
                    if self.scopes[i][j].1.is_some() {
                        return Some((i, j));
                    }
                },
                None => {},
            }
        }
        None
    }

    /// `name` prefixed with the index of the innermost scope that declares
    /// it, or `name` itself when no scope does.
    pub fn scope_prefix(&self, name: String) -> (r: String)
        requires
            self.wf(),
        ensures
            r@ == match find_scope(self@, name@, self@.len() as int) {
                Some(i) => decimal(i as nat) + name@,
                None => name@,
            },
    {
        match self.find_scope_index(name.as_str()) {
            Some((i, _)) => {
                let mut s = String::new();
                push_decimal(&mut s, i as u64);
                s.append(name.as_str());
                assert(s@ =~= decimal(i as nat) + name@);
                s
            },
            None => name,
        }
    }

    /// Opens a new, empty innermost scope.
    pub fn push_empty_scope(&mut self)
        requires
            old(self).wf(),
        ensures
            final(self).wf(),
            final(self)@ == old(self)@.push(Map::empty()),
    {
        let ghost s0 = self.scopes@;
        self.scopes.push(Vec::new());
        proof {
            lemma_scope_map_empty(self.scopes@[s0.len() as int]@);
        }
        assert(self@ =~= old(self)@.push(Map::empty()));
    }

    /// Opens a new innermost scope holding the given entries, entered in
    /// order (a later entry for a name replaces an earlier one).
    pub fn push_scope(&mut self, entries: Vec<(String, Option<T>)>)
        requires
            old(self).wf(),
        ensures
            final(self).wf(),
            final(self)@ == old(self)@.push(entries_map(entries@)),
    {
        let ghost all = entries@;
        let mut scope: Entries<T> = Vec::new();
        let mut rest = entries;
        let mut done: usize = 0;
        let total = rest.len();
        proof {
            lemma_scope_map_empty(scope@);
        }
        while rest.len() > 0
            invariant
                names_distinct(scope@),
                done + rest@.len() == all.len(),
                total == all.len(),
                rest@ =~= all.skip(done as int),
                scope_map(scope@) == entries_map(all.take(done as int)),
            decreases rest@.len(),
        {
            let e = rest.remove(0);
            assert(e == all[done as int]);
            let ghost ec = e;
            scope_set(&mut scope, e.0, e.1);
            proof {
                assert(all.take(done as int + 1).drop_last() =~= all.take(done as int));
            }
            done = done + 1;
            assert(rest@ =~= all.skip(done as int));
        }
        assert(all.take(done as int) =~= all);
        let ghost s0 = self.scopes@;
        self.scopes.push(scope);
        assert(self@ =~= old(self)@.push(entries_map(all)));
    }

    /// Closes the innermost scope, if there is one.
    pub fn pop_scope(&mut self)
        requires
            old(self).wf(),
        ensures
            final(self).wf(),
            final(self)@ == if old(self)@.len() == 0 {
                old(self)@
            } else {
                old(self)@.drop_last()
            },
    {
        let _ = self.scopes.pop();
        assert(self@ =~= if old(self)@.len() == 0 {
            old(self)@
        } else {
            old(self)@.drop_last()
        });
    }

    fn set_innermost(&mut self, name: String, val: Option<T>)
        requires
            old(self).wf(),
        ensures
            final(self).wf(),
            final(self)@ == declare(old(self)@, name@, opt_view(val)),
    {
        let n = self.scopes.len();
        if n > 0 {
            let ghost s0 = self.scopes@;
            let mut scope = self.scopes.pop().unwrap();
            scope_set(&mut scope, name, val);
            self.scopes.push(scope);
            assert(self@ =~= declare(old(self)@, name@, opt_view(val)));
        }
    }

    /// Enters `name` with a value into the innermost scope.
    pub fn insert(&mut self, name: String, val: T)
        requires
            old(self).wf(),
        ensures
            final(self).wf(),
            final(self)@ == declare(old(self)@, name@, Some(val@)),
    {
        self.set_innermost(name, Some(val));
    }

    /// Enters `name` without a value into the innermost scope.
    pub fn insert_none(&mut self, name: String)
        requires
            old(self).wf(),
        ensures
            final(self).wf(),
            final(self)@ == declare(old(self)@, name@, None),
    {
        self.set_innermost(name, None);
    }

    fn set_declared(&mut self, name: &str, val: Option<T>) -> (r: bool)
        requires
            old(self).wf(),
        ensures
            final(self).wf(),
            r == find_scope(old(self)@, name@, old(self)@.len() as int) is Some,
            final(self)@ == assign(old(self)@, name@, opt_view(val)),
    {
        match self.find_scope_index(name) {
            Some((i, j)) => {
                let ghost s0 = self.scopes@;
                let mut scope: Entries<T> = Vec::new();
                std::mem::swap(&mut scope, &mut self.scopes[i]);
                let n = scope[j].0.clone();
                proof {
                    lemma_scope_map_update(scope@, j as int, val);
                }
                let ghost sc0 = scope@;
                scope.set(j, (n, val));
                assert(scope@ =~= sc0.update(j as int, (sc0[j as int].0, val)));
                self.scopes.set(i, scope);
                assert(self@ =~= assign(old(self)@, name@, opt_view(val)));
                true
            },
            None => false,
        }
    }

    /// Gives `name` a value in the innermost scope that declares it; false
    /// when no scope does.
    pub fn update(&mut self, name: &str, val: T) -> (r: bool)
        requires
            old(self).wf(),
        ensures
            final(self).wf(),
            r == find_scope(old(self)@, name@, old(self)@.len() as int) is Some,
            final(self)@ == assign(old(self)@, name@, Some(val@)),
    {
        self.set_declared(name, Some(val))
    }

    /// Clears the value of `name` in the innermost scope that declares it;
    /// false when no scope does.
    pub fn update_none(&mut self, name: &str) -> (r: bool)
        requires
            old(self).wf(),
        ensures
            final(self).wf(),
            r == find_scope(old(self)@, name@, old(self)@.len() as int) is Some,
            final(self)@ == assign(old(self)@, name@, None),
    {
        self.set_declared(name, None)
    }

    /// The value of `name` in the innermost scope in which it holds one.
    pub fn get(&self, name: &str) -> (r: Option<&T>)
        requires
            self.wf(),
        ensures
            match r {
                Some(v) => lookup(self@, name@) == Some(v@),
                None => lookup(self@, name@) is None,
            },
    {
        match self.find_value_index(name) {
            Some((i, j)) => {
                proof {
                    lemma_scope_map_at(self.scopes@[i as int]@, j as int);
                }
                self.scopes[i][j].1.as_ref()
            },
            None => None,
        }
    }

    /// Mutable access to the value that [`Env::get`] finds.
    pub fn get_mut(&mut self, name: &str) -> (r: Option<&mut T>)
        requires
            old(self).wf(),
        ensures
            match r {
                Some(v) => {
                    &&& lookup(old(self)@, name@) == Some((*v)@)
                    &&& final(self).wf()
                    &&& final(self)@ == old(self)@.update(
                        find_value(old(self)@, name@, old(self)@.len() as int)->0,
                        old(self)@[find_value(old(self)@, name@, old(self)@.len() as int)->0].insert(
                            name@,
                            Some((*final(v))@),
                        ),
                    )
                },
                None => lookup(old(self)@, name@) is None && *final(self) == *old(self),
            },
    {
        match self.find_value_index(name) {
            Some((i, j)) => {
                proof {
                    lemma_scope_map_at(self.scopes@[i as int]@, j as int);
                    lemma_scope_map_update_any(self.scopes@[i as int]@, j as int);
                }
                let scope = &mut self.scopes[i];
                let entry = &mut scope[j];
                entry.1.as_mut()
            },
            None => None,
        }
    }

    /// Whether some scope declares `name`.
    pub fn contains(&self, name: &str) -> (r: bool)
        requires
            self.wf(),
        ensures
            r == declares(self@, name@),
    {
        let r = self.find_scope_index(name);
        proof {
            lemma_find_scope_declares(self@, name@, self@.len() as int);
        }
        r.is_some()
    }

    /// Removes `name` from the scopes, from the innermost one outwards, until
    /// an entry with a value has been removed; that value is returned.
    pub fn remove(&mut self, name: &str) -> (r: Option<T>)
        requires
            old(self).wf(),
        ensures
            final(self).wf(),
            opt_view(r) == lookup(old(self)@, name@),
            final(self)@ == withdraw(old(self)@, name@),
    {
        let ghost m0 = old(self)@;
        let ghost k: int = match find_value(m0, name@, m0.len() as int) {
            Some(i) => i,
            None => 0,
        };
        proof {
            lemma_find_value_range(m0, name@, m0.len() as int);
        }
        let mut i = self.scopes.len();
        while i > 0
            invariant
                self.wf(),
                i <= self.scopes@.len(),
                self.scopes@.len() == m0.len(),
                m0 == old(self)@,
                k == match find_value(m0, name@, m0.len() as int) {
                    Some(i) => i,
                    None => 0,
                },
                find_value(m0, name@, m0.len() as int) == find_value(m0, name@, i as int),
                k <= i,
                forall|x: int| 0 <= x < i ==> #[trigger] self@[x] == m0[x],
                forall|x: int| i <= x < m0.len() ==> #[trigger] self@[x] == m0[x].remove(name@),
            decreases i,
        {
            i = i - 1;
            let ghost before = self.scopes@;
            let ghost vb = self@;
            assert(vb[i as int] == m0[i as int]);
            match find_entry(&self.scopes[i], name) {
                Some(j) => {
                    proof {
                        lemma_scope_map_at(self.scopes@[i as int]@, j as int);
                        lemma_scope_map_remove(self.scopes@[i as int]@, j as int);
                    }
                    let mut scope: Entries<T> = Vec::new();
                std::mem::swap(&mut scope, &mut self.scopes[i]);
                    let e = scope.remove(j);
                    let ghost sc = scope;
                    self.scopes.set(i, scope);
                    assert(self.scopes@ =~= before.update(i as int, sc));
                    assert forall|x: int| 0 <= x < i implies #[trigger] self@[x] == m0[x] by {
                        assert(self.scopes@[x] == before[x]);
                        assert(vb[x] == scope_map(before[x]@));
                    }
                    assert forall|x: int| i <= x < m0.len() implies #[trigger] self@[x]
                        == m0[x].remove(name@) by {
                        if x > i {
                            assert(self.scopes@[x] == before[x]);
                            assert(vb[x] == scope_map(before[x]@));
                        } else {
                            assert(vb[x] == scope_map(before[x]@));
                        }
                    }
                    match e.1 {
                        Some(v) => {
                            assert(vb[i as int] == scope_map(before[i as int]@));
                            assert(m0[i as int].dom().contains(name@));
                            assert(m0[i as int][name@] == Some(v@));
                            assert(find_value(m0, name@, i + 1) == Some(i as int));
                            assert(find_value(m0, name@, m0.len() as int) == Some(i as int));
                            assert(k == i);
                            assert(self@ =~= withdraw(m0, name@));
                            assert(lookup(m0, name@) == Some(v@));
                            return Some(v);
                        },
                        None => {
                            assert(vb[i as int] == scope_map(before[i as int]@));
                            assert(m0[i as int][name@] is None);
                            assert(find_value(m0, name@, i + 1) == find_value(m0, name@, i as int));
                            proof {
                                lemma_find_value_range(m0, name@, i as int);
                            }
                        },
                    }
                },
                None => {
                    assert(!m0[i as int].dom().contains(name@));
                    assert(m0[i as int].remove(name@) =~= m0[i as int]);
                    assert(find_value(m0, name@, i + 1) == find_value(m0, name@, i as int));
                    proof {
                        lemma_find_value_range(m0, name@, i as int);
                    }
                },
            }
        }
        assert(self@ =~= withdraw(m0, name@));
        None
    }
}

proof fn lemma_find_scope_declares<V>(m: Seq<Map<Seq<char>, Option<V>>>, name: Seq<char>, n: int)
    requires
        0 <= n <= m.len(),
    ensures
        find_scope(m, name, n) is Some <==> exists|i: int|
            0 <= i < n && #[trigger] m[i].dom().contains(name),
    decreases n,
{
    if n > 0 {
        lemma_find_scope_declares(m, name, n - 1);
    }
}

impl<T: DeepCopy> Env<T> {
    /// A copy of the environment.
    pub fn deep_copy(&self) -> (r: Self)
        requires
            self.wf(),
        ensures
            r.wf(),
            r@ == self@,
    {
        let mut scopes: Vec<Entries<T>> = Vec::new();
        for i in 0..self.scopes.len()
            invariant
                self.wf(),
                scopes@.len() == i,
                forall|x: int| 0 <= x < i ==> names_distinct(#[trigger] scopes@[x]@),
                forall|x: int| 0 <= x < i ==> #[trigger] scope_map(scopes@[x]@) == scope_map(
                    self.scopes@[x]@,
                ),
        {
            let src = &self.scopes[i];
            let mut scope: Entries<T> = Vec::new();
            for j in 0..src.len()
                invariant
                    src@ == self.scopes@[i as int]@,
                    names_distinct(src@),
                    scope@.len() == j,
                    forall|y: int| 0 <= y < j ==> (#[trigger] scope@[y]).0@ == src@[y].0@,
                    forall|y: int| 0 <= y < j ==> opt_view((#[trigger] scope@[y]).1) == opt_view(
                        src@[y].1,
                    ),
            {
                let v = match &src[j].1 {
                    Some(x) => Some(x.deep_copy()),
                    None => None,
                };
                scope.push((src[j].0.clone(), v));
            }
            assert(names_distinct(scope@));
            assert(scope_map(scope@) =~= scope_map(src@)) by {
                assert forall|k: Seq<char>| has_name(scope@, k) == has_name(src@, k) by {
                    if has_name(scope@, k) {
                        let y = choose|y: int| 0 <= y < scope@.len() && scope@[y].0@ == k;
                        assert(src@[y].0@ == k);
                    }
                    if has_name(src@, k) {
                        let y = choose|y: int| 0 <= y < src@.len() && src@[y].0@ == k;
                        assert(scope@[y].0@ == k);
                    }
                }
                assert forall|k: Seq<char>| #[trigger] scope_map(scope@).dom().contains(k) implies scope_map(
                    scope@,
                )[k] == scope_map(src@)[k] by {
                    let y = choose|y: int| 0 <= y < scope@.len() && scope@[y].0@ == k;
                    lemma_scope_map_at(scope@, y);
                    lemma_scope_map_at(src@, y);
                }
            }
            scopes.push(scope);
        }
        let r = Env { scopes };
        assert(r@ =~= self@);
        r
    }
}

} // verus!

verus! {

// ---------------------------------------------------------------------------
// Laws
// ---------------------------------------------------------------------------

/// A value entered into the innermost scope is what a lookup of its name
/// then finds.
pub proof fn lemma_lookup_after_declare<V>(m: Seq<Map<Seq<char>, Option<V>>>, k: Seq<char>, v: V)
    requires
        m.len() > 0,
    ensures
        lookup(declare(m, k, Some(v)), k) == Some(v),
{
    let m2 = declare(m, k, Some(v));
    assert(m2[m.len() - 1] == m.last().insert(k, Some(v)));
}

/// Entering a name leaves the lookup of every other name as it was.
pub proof fn lemma_lookup_other_after_declare<V>(
    m: Seq<Map<Seq<char>, Option<V>>>,
    k: Seq<char>,
    x: Option<V>,
    j: Seq<char>,
)
    requires
        j != k,
    ensures
        lookup(declare(m, k, x), j) == lookup(m, j),
{
    let m2 = declare(m, k, x);
    lemma_find_value_other(m, m2, j, m.len() as int);
    lemma_find_value_range(m, j, m.len() as int);
}

proof fn lemma_find_value_other<V>(
    m: Seq<Map<Seq<char>, Option<V>>>,
    m2: Seq<Map<Seq<char>, Option<V>>>,
    j: Seq<char>,
    n: int,
)
    requires
        m2.len() == m.len(),
        n <= m.len(),
        forall|i: int| 0 <= i < m.len() ==> (#[trigger] m2[i]).contains_key(j) == m[i].contains_key(j)
            && (m[i].contains_key(j) ==> m2[i][j] == m[i][j]),
    ensures
        find_value(m2, j, n) == find_value(m, j, n),
    decreases n,
{
    if n > 0 {
        assert(m2[n - 1].contains_key(j) == m[n - 1].contains_key(j));
        lemma_find_value_other(m, m2, j, n - 1);
    }
}

/// After a value is stored under a declared name, a lookup of that name
/// finds it.
pub proof fn lemma_lookup_after_assign<V>(m: Seq<Map<Seq<char>, Option<V>>>, k: Seq<char>, v: V)
    requires
        declares(m, k),
    ensures
        lookup(assign(m, k, Some(v)), k) == Some(v),
{
    lemma_find_scope_declares(m, k, m.len() as int);
    let i = find_scope(m, k, m.len() as int)->0;
    lemma_find_scope_range(m, k, m.len() as int);
    let m2 = assign(m, k, Some(v));
    lemma_find_value_at_scope(m, m2, k, i, m.len() as int);
}

proof fn lemma_find_scope_range<V>(m: Seq<Map<Seq<char>, Option<V>>>, k: Seq<char>, n: int)
    ensures
        find_scope(m, k, n) matches Some(i) ==> 0 <= i < n && m[i].dom().contains(k) && forall|j: int|
            i < j < n ==> !(#[trigger] m[j]).dom().contains(k),
    decreases n,
{
    if n > 0 {
        lemma_find_scope_range(m, k, n - 1);
    }
}

proof fn lemma_find_value_at_scope<V>(
    m: Seq<Map<Seq<char>, Option<V>>>,
    m2: Seq<Map<Seq<char>, Option<V>>>,
    k: Seq<char>,
    i: int,
    n: int,
)
    requires
        0 <= i < n <= m.len(),
        m2.len() == m.len(),
        m2[i].contains_key(k),
        m2[i][k] is Some,
        forall|j: int| i < j < n ==> !(#[trigger] m2[j]).dom().contains(k),
    ensures
        find_value(m2, k, n) == Some(i),
    decreases n,
{
    if n - 1 > i {
        assert(!m2[n - 1].dom().contains(k));
        lemma_find_value_at_scope(m, m2, k, i, n - 1);
    }
}

/// Opening a scope and closing it again leaves the environment as it was.
pub proof fn lemma_pop_after_push<V>(m: Seq<Map<Seq<char>, Option<V>>>, s: Map<Seq<char>, Option<V>>)
    ensures
        m.push(s).drop_last() == m,
{
    assert(m.push(s).drop_last() =~= m);
}

} // verus!

verus! {

/// The environment after entering each name of `es` with its value, in
/// order, into the innermost scope.
pub open spec fn declare_all<V>(m: Seq<Map<Seq<char>, Option<V>>>, es: Seq<(Seq<char>, Option<V>)>) -> Seq<
    Map<Seq<char>, Option<V>>,
>
    decreases es.len(),
{
    if es.len() == 0 {
        m
    } else {
        declare(declare_all(m, es.drop_last()), es.last().0, es.last().1)
    }
}

/// Opening a scope, entering any number of names into it, and closing it
/// again leaves the environment as it was.
pub proof fn lemma_pop_undoes_scope<V>(
    m: Seq<Map<Seq<char>, Option<V>>>,
    s: Map<Seq<char>, Option<V>>,
    es: Seq<(Seq<char>, Option<V>)>,
)
    ensures
        declare_all(m.push(s), es).len() == m.len() + 1,
        declare_all(m.push(s), es).drop_last() == m,
    decreases es.len(),
{
    if es.len() == 0 {
        assert(m.push(s).drop_last() =~= m);
    } else {
        lemma_pop_undoes_scope(m, s, es.drop_last());
        let x = declare_all(m.push(s), es.drop_last());
        let y = declare(x, es.last().0, es.last().1);
        assert(y.drop_last() =~= x.drop_last());
    }
}

} // verus!
