//! Tables keyed by name, in declaration order.
use vstd::prelude::*;

use crate::meta::str_eq;

verus! {

/// The names of a list of declarations.
pub open spec fn names_of<V>(s: Seq<(Seq<char>, V)>) -> Seq<Seq<char>> {
    s.map_values(|e: (Seq<char>, V)| e.0)
}

/// No name is declared twice.
pub open spec fn names_distinct<V>(s: Seq<(Seq<char>, V)>) -> bool {
    forall|i: int, j: int|
        0 <= i < s.len() && 0 <= j < s.len() && #[trigger] s[i].0 == #[trigger] s[j].0 ==> i == j
}

/// `name` is declared in `s`.
pub open spec fn declares<V>(s: Seq<(Seq<char>, V)>, name: Seq<char>) -> bool {
    exists|i: int| 0 <= i < s.len() && #[trigger] s[i].0 == name
}

/// `i` is the position of `name` in `s`.
pub open spec fn declared_at<V>(s: Seq<(Seq<char>, V)>, name: Seq<char>, i: int) -> bool {
    0 <= i < s.len() && s[i].0 == name
}

/// The value declared for `name` in `s`.
pub open spec fn decl_value<V>(s: Seq<(Seq<char>, V)>, name: Seq<char>) -> V {
    s[choose|i: int| declared_at(s, name, i)].1
}

/// With distinct names, the value declared for a name is the one at its position.
pub proof fn lemma_decl_value<V>(s: Seq<(Seq<char>, V)>, name: Seq<char>, i: int)
    requires
        names_distinct(s),
        declared_at(s, name, i),
    ensures
        decl_value(s, name) == s[i].1,
        declares(s, name),
{
    let j = choose|j: int| declared_at(s, name, j);
    assert(s[i].0 == s[j].0);
}

/// A position at which a declared name is declared.
pub proof fn lemma_declared_witness<V>(s: Seq<(Seq<char>, V)>, name: Seq<char>) -> (i: int)
    requires
        declares(s, name),
    ensures
        declared_at(s, name, i),
{
    choose|i: int| 0 <= i < s.len() && #[trigger] s[i].0 == name
}

/// Appending an undeclared name keeps the names distinct.
pub proof fn lemma_push_distinct<V>(s: Seq<(Seq<char>, V)>, name: Seq<char>, v: V)
    requires
        names_distinct(s),
        !declares(s, name),
    ensures
        names_distinct(s.push((name, v))),
{
    let t = s.push((name, v));
    assert forall|i: int, j: int|
        0 <= i < t.len() && 0 <= j < t.len() && #[trigger] t[i].0 == #[trigger] t[j].0 implies i == j by {
        if i < s.len() && j < s.len() {
            assert(t[i] == s[i] && t[j] == s[j]);
        } else if i < s.len() {
            assert(t[i] == s[i]);
            assert(declared_at(s, name, i));
        } else if j < s.len() {
            assert(t[j] == s[j]);
            assert(declared_at(s, name, j));
        }
    }
}

/// `new` is `old` after binding `name` to `v`: in its place if `name` was declared,
/// else appended.
pub open spec fn rebound<V>(
    old: Seq<(Seq<char>, V)>,
    new: Seq<(Seq<char>, V)>,
    name: Seq<char>,
    v: V,
) -> bool {
    if declares(old, name) {
        exists|i: int| declared_at(old, name, i) && new == old.update(i, (name, v))
    } else {
        new == old.push((name, v))
    }
}

/// `new` is `old` after declaring `name` with `v` unless it was declared.
pub open spec fn declared_once<V>(
    old: Seq<(Seq<char>, V)>,
    new: Seq<(Seq<char>, V)>,
    name: Seq<char>,
    v: V,
) -> bool {
    if declares(old, name) {
        new == old
    } else {
        new == old.push((name, v))
    }
}

/// Binding a name and reading it back gives the bound value; every other name reads as
/// before.
pub proof fn lemma_rebound_reads_back<V>(
    old: Seq<(Seq<char>, V)>,
    new: Seq<(Seq<char>, V)>,
    name: Seq<char>,
    v: V,
    other: Seq<char>,
)
    requires
        names_distinct(old),
        names_distinct(new),
        rebound(old, new, name, v),
    ensures
        declares(new, name),
        decl_value(new, name) == v,
        other != name ==> declares(new, other) == declares(old, other),
        other != name && declares(old, other) ==> decl_value(new, other) == decl_value(old, other),
{
    let n = if declares(old, name) {
        choose|i: int| declared_at(old, name, i) && new == old.update(i, (name, v))
    } else {
        old.len() as int
    };
    assert(new[n] == (name, v));
    lemma_decl_value(new, name, n);
    if other != name && declares(old, other) {
        let j = lemma_declared_witness(old, other);
        assert(new[j] == old[j]);
        lemma_decl_value(old, other, j);
        lemma_decl_value(new, other, j);
    }
    if other != name && declares(new, other) {
        let j = lemma_declared_witness(new, other);
        assert(j != n);
        assert(new[j] == old[j]);
        assert(declared_at(old, other, j));
    }
}

/// Declaring a name that is declared already changes nothing; declaring a new one makes
/// it read as the declared value and leaves every other name as it was.
pub proof fn lemma_declared_once_reads_back<V>(
    old: Seq<(Seq<char>, V)>,
    new: Seq<(Seq<char>, V)>,
    name: Seq<char>,
    v: V,
    other: Seq<char>,
)
    requires
        names_distinct(old),
        declared_once(old, new, name, v),
    ensures
        declares(old, name) ==> new == old,
        !declares(old, name) ==> declares(new, name) && decl_value(new, name) == v,
        other != name ==> declares(new, other) == declares(old, other),
        other != name && declares(old, other) ==> decl_value(new, other) == decl_value(old, other),
{
    if !declares(old, name) {
        lemma_push_distinct(old, name, v);
        lemma_rebound_reads_back(old, new, name, v, other);
    }
}

/// A table from names to values, in the order the names were declared; no name occurs
/// twice.
#[derive(Debug)]
pub struct NameMap<V> {
    entries: Vec<(String, V)>,
}

impl<V> View for NameMap<V> {
    type V = Seq<(Seq<char>, V)>;

    closed spec fn view(&self) -> Seq<(Seq<char>, V)> {
        self.entries@.map_values(|e: (String, V)| (e.0@, e.1))
    }
}

impl<V> NameMap<V> {
    /// The table's invariant: no name occurs twice.
    pub open spec fn wf(&self) -> bool {
        names_distinct(self@)
    }

    /// The empty table.
    pub fn new() -> (r: Self)
        ensures
            r.wf(),
            r@ == Seq::<(Seq<char>, V)>::empty(),
    {
        let r = NameMap { entries: Vec::new() };
        assert(r@ =~= Seq::<(Seq<char>, V)>::empty());
        r
    }

    /// The number of entries.
    pub fn len(&self) -> (r: usize)
        ensures
            r == self@.len(),
    {
        self.entries.len()
    }

    /// The position of `name`, if it is declared.
    pub fn find(&self, name: &str) -> (r: Option<usize>)
        requires
            self.wf(),
        ensures
            match r {
                Some(i) => declared_at(self@, name@, i as int),
                None => !declares(self@, name@),
            },
    {
        let mut i: usize = 0;
        while i < self.entries.len()
            invariant
                i <= self.entries@.len(),
                self@.len() == self.entries@.len(),
                forall|j: int| 0 <= j < i ==> self@[j].0 != name@,
            decreases self.entries@.len() - i,
        {
            if str_eq(self.entries[i].0.as_str(), name) {
                return Some(i);
            }
            i = i + 1;
        }
        None
    }

    /// The value of `name`, if it is declared.
    pub fn get(&self, name: &str) -> (r: Option<&V>)
        requires
            self.wf(),
        ensures
            match r {
                Some(v) => declares(self@, name@) && *v == decl_value(self@, name@),
                None => !declares(self@, name@),
            },
    {
        match self.find(name) {
            Some(i) => {
                proof {
                    lemma_decl_value(self@, name@, i as int);
                }
                Some(&self.entries[i].1)
            },
            None => None,
        }
    }

    /// The name and value at position `i`.
    pub fn entry_at(&self, i: usize) -> (r: (&String, &V))
        requires
            i < self@.len(),
        ensures
            r.0@ == self@[i as int].0,
            *r.1 == self@[i as int].1,
    {
        (&self.entries[i].0, &self.entries[i].1)
    }

    /// The names, in declaration order.
    pub fn names(&self) -> (r: Vec<String>)
        ensures
            r@.map_values(|s: String| s@) == names_of(self@),
    {
        let mut r: Vec<String> = Vec::new();
        let mut i: usize = 0;
        while i < self.entries.len()
            invariant
                i <= self.entries@.len(),
                self@.len() == self.entries@.len(),
                r@.len() == i,
                forall|j: int| 0 <= j < i ==> (#[trigger] r@[j])@ == self@[j].0,
            decreases self.entries@.len() - i,
        {
            r.push(self.entries[i].0.clone());
            i = i + 1;
        }
        assert(r@.map_values(|s: String| s@) =~= names_of(self@));
        r
    }

    /// The value at position `i`, to be changed in place.
    pub fn value_at_mut(&mut self, i: usize) -> (r: &mut V)
        requires
            i < old(self)@.len(),
        ensures
            *r == old(self)@[i as int].1,
            final(self)@ == old(self)@.update(i as int, (old(self)@[i as int].0, *final(r))),
    {
        &mut self.entries[i].1
    }

    /// Declare `name` with `value` unless it is declared already; `true` if it was added.
    pub fn try_insert(&mut self, name: String, value: V) -> (r: bool)
        requires
            old(self).wf(),
        ensures
            final(self).wf(),
            r == !declares(old(self)@, name@),
            r ==> final(self)@ == old(self)@.push((name@, value)),
            !r ==> final(self)@ == old(self)@,
    {
        match self.find(name.as_str()) {
            Some(_) => false,
            None => {
                let ghost old_view = self@;
                let ghost nv = name@;
                self.entries.push((name, value));
                assert(self@ =~= old_view.push((nv, value)));
                true
            },
        }
    }

    /// Bind `name` to `value`, in its place if it is declared already; `true` if it was.
    pub fn insert(&mut self, name: String, value: V) -> (r: bool)
        requires
            old(self).wf(),
        ensures
            final(self).wf(),
            r == declares(old(self)@, name@),
            !r ==> final(self)@ == old(self)@.push((name@, value)),
            r ==> exists|i: int|
                declared_at(old(self)@, name@, i) && final(self)@ == old(self)@.update(
                    i,
                    (name@, value),
                ),
    {
        match self.find(name.as_str()) {
            Some(i) => {
                let ghost old_view = self@;
                let ghost nv = name@;
                self.entries.set(i, (name, value));
                assert(self@ =~= old_view.update(i as int, (nv, value)));
                true
            },
            None => {
                let ghost old_view = self@;
                let ghost nv = name@;
                self.entries.push((name, value));
                assert(self@ =~= old_view.push((nv, value)));
                false
            },
        }
    }
}

} // verus!
