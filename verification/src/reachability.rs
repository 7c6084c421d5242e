//! Reachability between statements of a control-flow graph.
//!
//! A graph is given by the successor lists of its basic blocks; block `i` has an
//! edge to every block listed in `successors[i]`. The transitive closure of that
//! relation is computed once with the Floyd-Warshall algorithm, after which any two
//! locations can be compared in constant time.
use vstd::prelude::*;

verus! {

/// How two locations are related by control flow.
#[derive(Debug, Clone, Copy, PartialEq, Eq, Structural, PartialOrd, Ord, Hash)]
pub enum Reachable {
    Neither,
    From,
    To,
    Both,
}

impl Reachable {
    /// The first location reaches the second one.
    pub open spec fn forward(self) -> bool {
        self is From || self is Both
    }

    /// The second location reaches the first one.
    pub open spec fn backward(self) -> bool {
        self is To || self is Both
    }

    /// The relation seen from the other side: `From` and `To` swap.
    pub open spec fn converse(self) -> Reachable {
        match self {
            Reachable::From => Reachable::To,
            Reachable::To => Reachable::From,
            other => other,
        }
    }

    /// The value built from its two directions.
    pub open spec fn from_directions(forward: bool, backward: bool) -> Reachable {
        if forward && backward {
            Reachable::Both
        } else if forward {
            Reachable::From
        } else if backward {
            Reachable::To
        } else {
            Reachable::Neither
        }
    }

    /// `self` claims no direction that `other` does not claim as well.
    pub open spec fn is_covered_by(self, other: Reachable) -> bool {
        &&& self.forward() ==> other.forward()
        &&& self.backward() ==> other.backward()
    }

    /// A reference to the same value.
    pub fn as_ref<'a>(self) -> (r: &'a Reachable)
        ensures
            *r == self,
    {
        match self {
            Reachable::Neither => &Reachable::Neither,
            Reachable::From => &Reachable::From,
            Reachable::To => &Reachable::To,
            Reachable::Both => &Reachable::Both,
        }
    }

    /// Whether every direction in `self` is also present in `other`.
    pub fn covered_by(&self, other: &Self) -> (r: bool)
        ensures
            r == self.is_covered_by(*other),
    {
        match (self, other) {
            (Reachable::Neither, _) => true,
            (Reachable::From, Reachable::From) | (Reachable::From, Reachable::Both) => true,
            (Reachable::To, Reachable::To) | (Reachable::To, Reachable::Both) => true,
            (Reachable::Both, Reachable::Both) => true,
            _ => false,
        }
    }
}

/// `covered_by` is a partial order: reflexive, antisymmetric and transitive, with
/// `Neither` below and `Both` above every value.
pub proof fn lemma_covered_by_partial_order(a: Reachable, b: Reachable, c: Reachable)
    ensures
        a.is_covered_by(a),
        a.is_covered_by(b) && b.is_covered_by(a) ==> a == b,
        a.is_covered_by(b) && b.is_covered_by(c) ==> a.is_covered_by(c),
        Reachable::Neither.is_covered_by(a),
        a.is_covered_by(Reachable::Both),
{
}

/// A statement position: a basic block and an index inside it.
#[derive(Debug, Clone, Copy, PartialEq, Eq, Structural, Hash)]
pub struct Location {
    pub block: usize,
    pub statement_index: usize,
}

/// Block `i` has an edge to block `j`.
pub open spec fn edge(g: Seq<Seq<usize>>, i: int, j: int) -> bool {
    &&& 0 <= i < g.len()
    &&& exists|t: int| 0 <= t < g[i].len() && g[i][t] as int == j
}

/// `p` is a walk of at least one edge.
pub open spec fn is_walk(g: Seq<Seq<usize>>, p: Seq<int>) -> bool {
    &&& p.len() >= 2
    &&& forall|m: int| 0 <= m < p.len() - 1 ==> #[trigger] edge(g, p[m], p[m + 1])
}

/// Block `j` can be reached from block `i` by following at least one edge.
pub open spec fn reaches(g: Seq<Seq<usize>>, i: int, j: int) -> bool {
    exists|p: Seq<int>| #[trigger] is_walk(g, p) && p[0] == i && p.last() == j
}

/// Every successor names a block of the graph.
pub open spec fn successors_in_bounds(g: Seq<Seq<usize>>) -> bool {
    forall|i: int, t: int| 0 <= i < g.len() && 0 <= t < g[i].len() ==> #[trigger] g[i][t] < g.len()
}

/// How location `a` relates to location `b` in graph `g`: inside one block the
/// statement order decides, otherwise reachability between the blocks does.
pub open spec fn location_relation(g: Seq<Seq<usize>>, a: Location, b: Location) -> Reachable {
    if a.block == b.block {
        if a.statement_index < b.statement_index {
            Reachable::From
        } else if a.statement_index > b.statement_index {
            Reachable::To
        } else {
            Reachable::Both
        }
    } else {
        Reachable::from_directions(
            reaches(g, a.block as int, b.block as int),
            reaches(g, b.block as int, a.block as int),
        )
    }
}

/// Walks whose inner nodes all lie below `k`.
spec fn interior_below(p: Seq<int>, k: int) -> bool {
    forall|m: int| 0 < m < p.len() - 1 ==> #[trigger] p[m] < k
}

/// The Warshall recurrence: reachability using only blocks below `k` in between.
spec fn closure(g: Seq<Seq<usize>>, i: int, j: int, k: nat) -> bool
    decreases k,
{
    if k == 0 {
        edge(g, i, j)
    } else {
        closure(g, i, j, (k - 1) as nat) || (closure(g, i, k - 1, (k - 1) as nat) && closure(
            g,
            k - 1,
            j,
            (k - 1) as nat,
        ))
    }
}

/// Allowing block `k - 1` in between does not change paths that start or end there.
proof fn lemma_closure_pivot(g: Seq<Seq<usize>>, x: int, k: nat)
    requires
        k > 0,
    ensures
        closure(g, x, k - 1, k) == closure(g, x, k - 1, (k - 1) as nat),
        closure(g, k - 1, x, k) == closure(g, k - 1, x, (k - 1) as nat),
{
}

proof fn lemma_closure_to_walk(g: Seq<Seq<usize>>, i: int, j: int, k: nat)
    requires
        closure(g, i, j, k),
    ensures
        reaches(g, i, j),
    decreases k,
{
    if k == 0 {
        let p = seq![i, j];
        assert(edge(g, p[0], p[1]));
        assert(is_walk(g, p));
    } else if closure(g, i, j, (k - 1) as nat) {
        lemma_closure_to_walk(g, i, j, (k - 1) as nat);
    } else {
        lemma_closure_to_walk(g, i, k - 1, (k - 1) as nat);
        lemma_closure_to_walk(g, k - 1, j, (k - 1) as nat);
        let p1 = choose|p: Seq<int>| #[trigger] is_walk(g, p) && p[0] == i && p.last() == k - 1;
        let p2 = choose|p: Seq<int>| #[trigger] is_walk(g, p) && p[0] == k - 1 && p.last() == j;
        lemma_walk_concat(g, p1, p2);
    }
}

proof fn lemma_walk_concat(g: Seq<Seq<usize>>, p1: Seq<int>, p2: Seq<int>)
    requires
        is_walk(g, p1),
        is_walk(g, p2),
        p1.last() == p2[0],
    ensures
        is_walk(g, p1 + p2.drop_first()),
        (p1 + p2.drop_first())[0] == p1[0],
        (p1 + p2.drop_first()).last() == p2.last(),
        reaches(g, p1[0], p2.last()),
{
    let p = p1 + p2.drop_first();
    assert forall|m: int| 0 <= m < p.len() - 1 implies #[trigger] edge(g, p[m], p[m + 1]) by {
        if m < p1.len() - 1 {
            assert(p[m] == p1[m] && p[m + 1] == p1[m + 1]);
            assert(edge(g, p1[m], p1[m + 1]));
        } else {
            let d = m - (p1.len() - 1);
            assert(p[m] == p2[d]);
            assert(p[m + 1] == p2[d + 1]);
            assert(edge(g, p2[d], p2[d + 1]));
        }
    }
    assert(p.last() == p2.last());
    assert(is_walk(g, p));
}

proof fn lemma_walk_to_closure(g: Seq<Seq<usize>>, p: Seq<int>, k: nat)
    requires
        is_walk(g, p),
        interior_below(p, k as int),
    ensures
        closure(g, p[0], p.last(), k),
    decreases k, p.len(),
{
    if k == 0 {
        if p.len() > 2 {
            let one: int = 1;
            assert(edge(g, p[one], p[one + 1]));
            assert(p[one] < 0);
        }
        let zero: int = 0;
        assert(edge(g, p[zero], p[zero + 1]));
    } else if forall|m: int| 0 < m < p.len() - 1 ==> #[trigger] p[m] != k - 1 {
        assert(interior_below(p, k - 1));
        lemma_walk_to_closure(g, p, (k - 1) as nat);
    } else {
        let m = choose|m: int| 0 < m < p.len() - 1 && #[trigger] p[m] == k - 1;
        let q = p.subrange(0, m + 1);
        let r = p.subrange(m, p.len() as int);
        assert forall|x: int| 0 <= x < q.len() - 1 implies #[trigger] edge(g, q[x], q[x + 1]) by {
            assert(edge(g, p[x], p[x + 1]));
        }
        assert forall|x: int| 0 <= x < r.len() - 1 implies #[trigger] edge(g, r[x], r[x + 1]) by {
            assert(edge(g, p[m + x], p[m + x + 1]));
        }
        assert forall|x: int| 0 < x < q.len() - 1 implies #[trigger] q[x] < k by {
            assert(p[x] < k);
        }
        assert forall|x: int| 0 < x < r.len() - 1 implies #[trigger] r[x] < k by {
            assert(p[m + x] < k);
        }
        lemma_walk_to_closure(g, q, k);
        lemma_walk_to_closure(g, r, k);
        lemma_closure_pivot(g, p[0], k);
        lemma_closure_pivot(g, p.last(), k);
    }
}

/// With every successor in bounds, the closure over all blocks is reachability.
proof fn lemma_closure_is_reaches(g: Seq<Seq<usize>>, i: int, j: int)
    requires
        successors_in_bounds(g),
    ensures
        closure(g, i, j, g.len()) == reaches(g, i, j),
{
    if closure(g, i, j, g.len()) {
        lemma_closure_to_walk(g, i, j, g.len());
    }
    if reaches(g, i, j) {
        let p = choose|p: Seq<int>| #[trigger] is_walk(g, p) && p[0] == i && p.last() == j;
        assert forall|m: int| 0 < m < p.len() - 1 implies #[trigger] p[m] < g.len() by {
            assert(edge(g, p[m], p[m + 1]));
        }
        lemma_walk_to_closure(g, p, g.len());
    }
}

/// Reachability is transitive: walks compose.
pub proof fn lemma_reaches_transitive(g: Seq<Seq<usize>>, i: int, j: int, k: int)
    requires
        reaches(g, i, j),
        reaches(g, j, k),
    ensures
        reaches(g, i, k),
{
    let p1 = choose|p: Seq<int>| #[trigger] is_walk(g, p) && p[0] == i && p.last() == j;
    let p2 = choose|p: Seq<int>| #[trigger] is_walk(g, p) && p[0] == j && p.last() == k;
    lemma_walk_concat(g, p1, p2);
}

/// Comparing `b` with `a` gives the converse of comparing `a` with `b`.
pub proof fn lemma_location_relation_converse(g: Seq<Seq<usize>>, a: Location, b: Location)
    ensures
        location_relation(g, b, a) == location_relation(g, a, b).converse(),
{
}

/// Transitive closure of the block graph of a function body.
pub struct Reachability {
    inner: Vec<Vec<bool>>,
    graph: Ghost<Seq<Seq<usize>>>,
}

impl Reachability {
    /// The graph this closure was computed from.
    pub closed spec fn graph(&self) -> Seq<Seq<usize>> {
        self.graph@
    }

    /// The number of basic blocks.
    pub open spec fn num_blocks(&self) -> nat {
        self.graph().len()
    }

    #[verifier::type_invariant]
    closed spec fn inv(self) -> bool {
        &&& successors_in_bounds(self.graph@)
        &&& self.inner@.len() == self.graph@.len()
        &&& forall|i: int|
            0 <= i < self.inner@.len() ==> #[trigger] self.inner@[i]@.len() == self.graph@.len()
        &&& forall|i: int, j: int|
            0 <= i < self.graph@.len() && 0 <= j < self.graph@.len() ==> #[trigger] self.inner@[i]@[j]
                == reaches(self.graph@, i, j)
    }

    /// Collect the reachability information of a MIR body given by the successor
    /// lists of its basic blocks, with the Floyd-Warshall algorithm.
    pub fn new_mir(successors: &Vec<Vec<usize>>) -> (r: Reachability)
        requires
            successors_in_bounds(successors.deep_view()),
        ensures
            r.graph() == successors.deep_view(),
            r.num_blocks() == successors@.len(),
    {
        Self::from_successors(successors)
    }

    /// Collect the reachability information of a pattern body given by the
    /// successor lists of its basic blocks, with the Floyd-Warshall algorithm.
    pub fn new_pat(successors: &Vec<Vec<usize>>) -> (r: Reachability)
        requires
            successors_in_bounds(successors.deep_view()),
        ensures
            r.graph() == successors.deep_view(),
            r.num_blocks() == successors@.len(),
    {
        Self::from_successors(successors)
    }

    fn from_successors(successors: &Vec<Vec<usize>>) -> (r: Reachability)
        requires
            successors_in_bounds(successors.deep_view()),
        ensures
            r.graph() == successors.deep_view(),
    {
        let ghost g = successors.deep_view();
        let n = successors.len();
        let mut inner: Vec<Vec<bool>> = Vec::new();
        // Direct edges.
        for bb in 0..n
            invariant
                n == successors.len(),
                g == successors.deep_view(),
                successors_in_bounds(g),
                inner@.len() == bb,
                forall|r: int| 0 <= r < bb ==> #[trigger] inner@[r]@.len() == n,
                forall|r: int, j: int|
                    0 <= r < bb && 0 <= j < n ==> #[trigger] inner@[r]@[j] == closure(g, r, j, 0),
        {
            let mut row: Vec<bool> = Vec::new();
            for j in 0..n
                invariant
                    row@.len() == j,
                    forall|x: int| 0 <= x < j ==> row@[x] == false,
            {
                row.push(false);
            }
            let succ = &successors[bb];
            assert(succ@ == g[bb as int]);
            for t in 0..succ.len()
                invariant
                    n == successors.len(),
                    g == successors.deep_view(),
                    successors_in_bounds(g),
                    succ@ == g[bb as int],
                    bb < n,
                    row@.len() == n,
                    forall|j: int|
                        0 <= j < n ==> #[trigger] row@[j] == (exists|x: int|
                            0 <= x < t && succ@[x] as int == j),
            {
                let s = succ[t];
                assert(s < n);
                row.set(s, true);
                assert forall|j: int| 0 <= j < n implies #[trigger] row@[j] == (exists|x: int|
                    0 <= x < t + 1 && succ@[x] as int == j) by {
                    if j == s as int {
                        assert(succ@[t as int] as int == j);
                    }
                }
            }
            assert forall|j: int| 0 <= j < n implies #[trigger] row@[j] == closure(g, bb as int, j, 0) by {
                if row@[j] {
                    let x = choose|x: int| 0 <= x < succ@.len() && succ@[x] as int == j;
                    assert(g[bb as int][x] as int == j);
                }
                if edge(g, bb as int, j) {
                    let x = choose|x: int| 0 <= x < g[bb as int].len() && g[bb as int][x] as int == j;
                    assert(succ@[x] as int == j);
                }
            }
            inner.push(row);
        }
        // Relax through every block in turn.
        for k in 0..n
            invariant
                n == successors.len(),
                g == successors.deep_view(),
                inner@.len() == n,
                forall|r: int| 0 <= r < n ==> #[trigger] inner@[r]@.len() == n,
                forall|r: int, j: int|
                    0 <= r < n && 0 <= j < n ==> #[trigger] inner@[r]@[j] == closure(g, r, j, k as nat),
        {
            for i in 0..n
                invariant
                    n == successors.len(),
                    k < n,
                    inner@.len() == n,
                    forall|r: int| 0 <= r < n ==> #[trigger] inner@[r]@.len() == n,
                    forall|r: int, j: int|
                        0 <= r < i && 0 <= j < n ==> #[trigger] inner@[r]@[j] == closure(
                            g,
                            r,
                            j,
                            (k + 1) as nat,
                        ),
                    forall|r: int, j: int|
                        i <= r < n && 0 <= j < n ==> #[trigger] inner@[r]@[j] == closure(
                            g,
                            r,
                            j,
                            k as nat,
                        ),
            {
                let mut new_row: Vec<bool> = Vec::new();
                let over_k = inner[i][k];
                assert(over_k == closure(g, i as int, k as int, k as nat));
                for j in 0..n
                    invariant
                        k < n,
                        i < n,
                        inner@.len() == n,
                        forall|r: int| 0 <= r < n ==> #[trigger] inner@[r]@.len() == n,
                        over_k == closure(g, i as int, k as int, k as nat),
                        forall|r: int, j: int|
                            0 <= r < i && 0 <= j < n ==> #[trigger] inner@[r]@[j] == closure(
                                g,
                                r,
                                j,
                                (k + 1) as nat,
                            ),
                        forall|r: int, j: int|
                            i <= r < n && 0 <= j < n ==> #[trigger] inner@[r]@[j] == closure(
                                g,
                                r,
                                j,
                                k as nat,
                            ),
                        new_row@.len() == j,
                        forall|x: int|
                            0 <= x < j ==> #[trigger] new_row@[x] == closure(
                                g,
                                i as int,
                                x,
                                (k + 1) as nat,
                            ),
                {
                    let through = inner[k][j];
                    proof {
                        lemma_closure_pivot(g, j as int, (k + 1) as nat);
                    }
                    assert(through == closure(g, k as int, j as int, k as nat));
                    let v = inner[i][j] || (over_k && through);
                    new_row.push(v);
                }
                inner.set(i, new_row);
            }
        }
        proof {
            assert forall|i: int, j: int| 0 <= i < n && 0 <= j < n implies #[trigger] inner@[i]@[j]
                == reaches(g, i, j) by {
                lemma_closure_is_reaches(g, i, j);
            }
        }
        Reachability { inner, graph: Ghost(g) }
    }

    /// How location `a` relates to location `b`.
    pub fn is_reachable(&self, a: Location, b: Location) -> (r: Reachable)
        requires
            a.block < self.num_blocks(),
            b.block < self.num_blocks(),
        ensures
            r == location_relation(self.graph(), a, b),
    {
        proof {
            use_type_invariant(self);
        }
        if a.block == b.block {
            if a.statement_index < b.statement_index {
                return Reachable::From;
            } else if a.statement_index > b.statement_index {
                return Reachable::To;
            } else {
                return Reachable::Both;
            }
        }
        let from_to = self.inner[a.block][b.block];
        let to_from = self.inner[b.block][a.block];
        match (from_to, to_from) {
            (true, true) => Reachable::Both,
            (true, false) => Reachable::From,
            (false, true) => Reachable::To,
            (false, false) => Reachable::Neither,
        }
    }

    /// The relation of the pair `(from, to)`: indexing by a pair of locations.
    pub fn index(&self, index: (Location, Location)) -> (r: Reachable)
        requires
            index.0.block < self.num_blocks(),
            index.1.block < self.num_blocks(),
        ensures
            r == location_relation(self.graph(), index.0, index.1),
    {
        let (from, to) = index;
        *self.is_reachable(from, to).as_ref()
    }
}

} // verus!
