//! Resolved ADT field metavariable bindings: `(adt_pat, field_metavar) -> FieldIdx`.
use vstd::prelude::*;

use crate::types::{FieldIdx, Interned, Symbol};

verus! {

/// One binding of a field metavariable of an ADT pattern to a field index.
#[derive(Debug, Clone, Copy, PartialEq, Eq, Structural)]
pub struct AdtFieldEntry {
    pub adt: Symbol,
    pub field: Symbol,
    pub idx: FieldIdx,
}

impl AdtFieldEntry {
    pub open spec fn key(self) -> (Symbol, Symbol) {
        (self.adt, self.field)
    }
}

/// A finite map from `(adt_pat, field_metavar)` to the bound field index.
#[derive(Debug)]
pub struct AdtFieldMap {
    entries: Vec<AdtFieldEntry>,
}

/// The map that a list of entries with distinct keys stands for.
pub open spec fn entries_map(e: Seq<AdtFieldEntry>) -> Map<(Symbol, Symbol), FieldIdx> {
    Map::new(
        |k: (Symbol, Symbol)| exists|i: int| 0 <= i < e.len() && #[trigger] e[i].key() == k,
        |k: (Symbol, Symbol)| e[choose|i: int| 0 <= i < e.len() && #[trigger] e[i].key() == k].idx,
    )
}

/// No key occurs twice.
pub open spec fn keys_distinct(e: Seq<AdtFieldEntry>) -> bool {
    forall|i: int, j: int|
        0 <= i < e.len() && 0 <= j < e.len() && #[trigger] e[i].key() == #[trigger] e[j].key() ==> i
            == j
}

/// Every key present in both maps is bound to the same value.
pub open spec fn maps_agree(a: Map<(Symbol, Symbol), FieldIdx>, b: Map<(Symbol, Symbol), FieldIdx>) -> bool {
    forall|k: (Symbol, Symbol)| a.contains_key(k) && b.contains_key(k) ==> #[trigger] a[k] == b[k]
}

pub proof fn lemma_entries_map_at(e: Seq<AdtFieldEntry>, i: int)
    requires
        keys_distinct(e),
        0 <= i < e.len(),
    ensures
        entries_map(e).contains_key(e[i].key()),
        entries_map(e)[e[i].key()] == e[i].idx,
{
    let k = e[i].key();
    assert(entries_map(e).dom().contains(k));
    let j = choose|j: int| 0 <= j < e.len() && #[trigger] e[j].key() == k;
    assert(i == j);
}

/// Extending a prefix of distinct-key entries by one entry adds its binding.
pub proof fn lemma_entries_map_prefix(e: Seq<AdtFieldEntry>, i: int)
    requires
        keys_distinct(e),
        0 <= i < e.len(),
    ensures
        !entries_map(e.take(i)).contains_key(e[i].key()),
        entries_map(e.take(i + 1)) == entries_map(e.take(i)).insert(e[i].key(), e[i].idx),
        entries_map(e.take(i)).submap_of(entries_map(e)),
{
    let a = e.take(i);
    let b = e.take(i + 1);
    assert(keys_distinct(a));
    assert(keys_distinct(b));
    if entries_map(a).contains_key(e[i].key()) {
        let j = choose|j: int| 0 <= j < a.len() && #[trigger] a[j].key() == e[i].key();
        assert(e[j].key() == e[i].key());
    }
    assert forall|k: (Symbol, Symbol)| #[trigger] entries_map(b).contains_key(k) == entries_map(a).insert(
        e[i].key(),
        e[i].idx,
    ).contains_key(k) by {
        if entries_map(b).contains_key(k) && k != e[i].key() {
            let j = choose|j: int| 0 <= j < b.len() && #[trigger] b[j].key() == k;
            assert(a[j].key() == k);
        }
        if entries_map(a).contains_key(k) {
            let j = choose|j: int| 0 <= j < a.len() && #[trigger] a[j].key() == k;
            assert(b[j].key() == k);
        }
        if k == e[i].key() {
            assert(b[i].key() == k);
        }
    }
    assert forall|k: (Symbol, Symbol)| #[trigger] entries_map(b).contains_key(k) implies entries_map(b)[k]
        == entries_map(a).insert(e[i].key(), e[i].idx)[k] by {
        let j = choose|j: int| 0 <= j < b.len() && #[trigger] b[j].key() == k;
        lemma_entries_map_at(b, j);
        if j < i {
            assert(a[j] == b[j]);
            lemma_entries_map_at(a, j);
        }
    }
    assert(entries_map(b) =~= entries_map(a).insert(e[i].key(), e[i].idx));
    assert forall|k: (Symbol, Symbol)| #[trigger] entries_map(a).contains_key(k) implies entries_map(e).contains_key(k)
        && entries_map(e)[k] == entries_map(a)[k] by {
        let j = choose|j: int| 0 <= j < a.len() && #[trigger] a[j].key() == k;
        lemma_entries_map_at(a, j);
        assert(e[j] == a[j]);
        lemma_entries_map_at(e, j);
    }
}

impl View for AdtFieldMap {
    type V = Map<(Symbol, Symbol), FieldIdx>;

    open spec fn view(&self) -> Map<(Symbol, Symbol), FieldIdx> {
        entries_map(self.entries_seq())
    }
}

impl AdtFieldMap {
    /// The bindings in the order in which they are walked.
    pub closed spec fn entries_seq(&self) -> Seq<AdtFieldEntry> {
        self.entries@
    }

    #[verifier::type_invariant]
    closed spec fn inv(self) -> bool {
        keys_distinct(self.entries@)
    }

    /// The empty map.
    pub fn new() -> (r: AdtFieldMap)
        ensures
            r@ == Map::<(Symbol, Symbol), FieldIdx>::empty(),
    {
        let r = AdtFieldMap { entries: Vec::new() };
        assert(r@ =~= Map::<(Symbol, Symbol), FieldIdx>::empty());
        r
    }

    /// The number of bindings.
    pub fn len(&self) -> (r: usize)
        ensures
            r == self.entries_seq().len(),
            keys_distinct(self.entries_seq()),
            r == self@.len(),
            r == self@.dom().len(),
    {
        proof {
            use_type_invariant(self);
            self.lemma_len();
        }
        self.entries.len()
    }

    proof fn lemma_len(&self)
        requires
            keys_distinct(self.entries@),
        ensures
            self@.dom().finite(),
            self@.dom().len() == self.entries@.len(),
            self@.len() == self.entries@.len(),
    {
        let e = self.entries@;
        let keys = e.map_values(|x: AdtFieldEntry| x.key());
        assert(keys.no_duplicates()) by {
            assert forall|i: int, j: int| 0 <= i < keys.len() && 0 <= j < keys.len() && i != j implies keys[i]
                != keys[j] by {
                if keys[i] == keys[j] {
                    assert(e[i].key() == e[j].key());
                }
            }
        }
        assert(self@.dom() =~= keys.to_set()) by {
            assert forall|k: (Symbol, Symbol)| self@.dom().contains(k) implies keys.to_set().contains(k) by {
                let i = choose|i: int| 0 <= i < e.len() && #[trigger] e[i].key() == k;
                assert(keys[i] == k);
            }
            assert forall|k: (Symbol, Symbol)| keys.to_set().contains(k) implies self@.dom().contains(k) by {
                let i = choose|i: int| 0 <= i < keys.len() && keys[i] == k;
                assert(e[i].key() == k);
            }
        }
        keys.unique_seq_to_set();
    }

    /// The `i`-th binding, in the order in which they are walked.
    pub fn entry(&self, i: usize) -> (r: AdtFieldEntry)
        requires
            i < self.entries_seq().len(),
        ensures
            r == self.entries_seq()[i as int],
            self@.contains_key(r.key()),
            self@[r.key()] == r.idx,
    {
        proof {
            use_type_invariant(self);
            lemma_entries_map_at(self.entries@, i as int);
        }
        self.entries[i]
    }

    /// The index bound to `(adt, field)`, if any.
    pub fn get(&self, adt: Symbol, field: Symbol) -> (r: Option<FieldIdx>)
        ensures
            r == (if self@.contains_key((adt, field)) {
                Some(self@[(adt, field)])
            } else {
                None
            }),
    {
        proof {
            use_type_invariant(self);
        }
        let ghost k = (adt, field);
        for i in 0..self.entries.len()
            invariant
                keys_distinct(self.entries@),
                k == (adt, field),
                forall|j: int| 0 <= j < i ==> #[trigger] self.entries@[j].key() != k,
        {
            let e = self.entries[i];
            if e.adt.same(&adt) && e.field.same(&field) {
                proof {
                    lemma_entries_map_at(self.entries@, i as int);
                }
                return Some(e.idx);
            }
        }
        None
    }

    /// The position of the binding of `(adt, field)`, if any.
    fn find(&self, adt: Symbol, field: Symbol) -> (r: Option<usize>)
        ensures
            match r {
                Some(i) => i < self.entries@.len() && self.entries@[i as int].key() == (adt, field),
                None => forall|j: int| 0 <= j < self.entries@.len() ==> #[trigger] self.entries@[j].key() != (adt, field),
            },
    {
        for i in 0..self.entries.len()
            invariant
                forall|j: int| 0 <= j < i ==> #[trigger] self.entries@[j].key() != (adt, field),
        {
            let e = self.entries[i];
            if e.adt.same(&adt) && e.field.same(&field) {
                return Some(i);
            }
        }
        None
    }

    /// Bind `(adt, field)` to `idx`, replacing an earlier binding of the key.
    pub fn insert(&mut self, adt: Symbol, field: Symbol, idx: FieldIdx)
        ensures
            final(self)@ == old(self)@.insert((adt, field), idx),
    {
        proof {
            use_type_invariant(&*self);
        }
        let ghost old_e = self.entries@;
        let ghost k = (adt, field);
        let found = self.find(adt, field);
        let i = match found {
            Some(i) => i,
            None => self.entries.len(),
        };
        let new_entry = AdtFieldEntry { adt, field, idx };
        let mut entries: Vec<AdtFieldEntry> = Vec::new();
        std::mem::swap(&mut entries, &mut self.entries);
        if i < entries.len() {
            entries.set(i, new_entry);
        } else {
            entries.push(new_entry);
        }
        let ghost ne = entries@;
        assert(keys_distinct(ne)) by {
            assert forall|a: int, b: int|
                0 <= a < ne.len() && 0 <= b < ne.len() && #[trigger] ne[a].key() == #[trigger] ne[b].key()
                    implies a == b by {
                if a != i && b != i {
                    assert(old_e[a].key() == old_e[b].key());
                }
            }
        }
        assert(entries_map(ne) =~= entries_map(old_e).insert(k, idx)) by {
            assert forall|kk: (Symbol, Symbol)| #[trigger] entries_map(ne).contains_key(kk) == entries_map(
                old_e,
            ).insert(k, idx).contains_key(kk) by {
                if entries_map(ne).contains_key(kk) {
                    let a = choose|a: int| 0 <= a < ne.len() && #[trigger] ne[a].key() == kk;
                    if a != i {
                        assert(old_e[a].key() == kk);
                    }
                }
                if kk != k && entries_map(old_e).contains_key(kk) {
                    let a = choose|a: int| 0 <= a < old_e.len() && #[trigger] old_e[a].key() == kk;
                    assert(ne[a].key() == kk);
                }
                if kk == k {
                    assert(ne[i as int].key() == kk);
                }
            }
            assert forall|kk: (Symbol, Symbol)| #[trigger] entries_map(ne).contains_key(kk) implies entries_map(
                ne,
            )[kk] == entries_map(old_e).insert(k, idx)[kk] by {
                let a = choose|a: int| 0 <= a < ne.len() && #[trigger] ne[a].key() == kk;
                lemma_entries_map_at(ne, a);
                if a != i {
                    assert(old_e[a].key() == kk);
                    lemma_entries_map_at(old_e, a);
                }
            }
        }
        self.entries = entries;
    }

    /// Add every binding of `other`, replacing the bindings of its keys.
    pub fn extend(&mut self, other: &AdtFieldMap)
        ensures
            final(self)@ == old(self)@.union_prefer_right(other@),
    {
        proof {
            use_type_invariant(other);
        }
        let ghost e = other.entries@;
        let ghost start = self@;
        let mut i: usize = 0;
        while i < other.entries.len()
            invariant
                e == other.entries@,
                keys_distinct(e),
                i <= e.len(),
                self@ == start.union_prefer_right(entries_map(e.take(i as int))),
            decreases e.len() - i,
        {
            let entry = other.entries[i];
            proof {
                lemma_entries_map_prefix(e, i as int);
            }
            self.insert(entry.adt, entry.field, entry.idx);
            proof {
                assert(self@ =~= start.union_prefer_right(entries_map(e.take(i as int + 1))));
            }
            i = i + 1;
        }
        assert(e.take(i as int) =~= e);
    }

    /// A copy of the map.
    pub fn copy(&self) -> (r: AdtFieldMap)
        ensures
            r@ == self@,
    {
        proof {
            use_type_invariant(self);
        }
        let entries = crate::types::copy_vec(&self.entries);
        AdtFieldMap { entries }
    }

    /// Whether every binding of `self` is also a binding of `other`.
    fn included_in(&self, other: &AdtFieldMap) -> (r: bool)
        ensures
            r == (forall|k: (Symbol, Symbol)|
                self@.contains_key(k) ==> other@.contains_key(k) && other@[k] == #[trigger] self@[k]),
    {
        proof {
            use_type_invariant(self);
        }
        let n = self.entries.len();
        for i in 0..n
            invariant
                n == self.entries@.len(),
                keys_distinct(self.entries@),
                forall|j: int|
                    0 <= j < i ==> other@.contains_key(#[trigger] self.entries@[j].key())
                        && other@[self.entries@[j].key()] == self.entries@[j].idx,
        {
            let e = self.entries[i];
            match other.get(e.adt, e.field) {
                Some(v) => {
                    if v != e.idx {
                        proof {
                            lemma_entries_map_at(self.entries@, i as int);
                            assert(self@.contains_key(e.key()) && self@[e.key()] != other@[e.key()]);
                        }
                        return false;
                    }
                },
                None => {
                    proof {
                        lemma_entries_map_at(self.entries@, i as int);
                        assert(self@.contains_key(e.key()) && !other@.contains_key(e.key()) && self@[e.key()]
                            == e.idx);
                    }
                    return false;
                },
            }
        }
        proof {
            assert forall|k: (Symbol, Symbol)| self@.contains_key(k) implies other@.contains_key(k)
                && other@[k] == #[trigger] self@[k] by {
                let j = choose|j: int| 0 <= j < self.entries@.len() && #[trigger] self.entries@[j].key() == k;
                lemma_entries_map_at(self.entries@, j);
            }
        }
        true
    }

    /// Whether both maps hold the same bindings.
    pub fn same_bindings(&self, other: &AdtFieldMap) -> (r: bool)
        ensures
            r == (self@ == other@),
    {
        let a = self.included_in(other);
        let b = other.included_in(self);
        proof {
            if a && b {
                assert forall|k: (Symbol, Symbol)| self@.contains_key(k) == other@.contains_key(k) by {
                    if self@.contains_key(k) {
                        assert(other@[k] == self@[k]);
                    }
                    if other@.contains_key(k) {
                        assert(self@[k] == other@[k]);
                    }
                }
                assert(self@ =~= other@);
            }
        }
        a && b
    }
}

} // verus!
