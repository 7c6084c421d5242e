//! Which locals of a function body are products (or quotients) of which others.
//!
//! The body is read as the list of its assignments to locals; each records which
//! operand locals the assigned local is a product of (an addition, subtraction or
//! multiplication, or a plain copy or cast) or a quotient of (the divisor of a division).
//! The direct relations are then chained through every local in turn.
use vstd::prelude::*;

verus! {

/// How an assignment to a local combines its operands.
#[derive(Debug, Clone, Copy, PartialEq, Eq, Structural)]
pub enum AssignKind {
    /// An addition, subtraction or multiplication of the two operands.
    Product,
    /// A division of the first operand by the second.
    Quotient,
    /// A copy or a cast of the first operand.
    Copy,
    /// Anything else.
    Other,
}

/// An assignment to local `lhs`, with the locals its operands are (`None` for an operand
/// that is not a local).
#[derive(Debug, Clone, Copy, PartialEq, Eq, Structural)]
pub struct LocalAssign {
    pub lhs: usize,
    pub kind: AssignKind,
    pub first: Option<usize>,
    pub second: Option<usize>,
}

/// A relation table between `n` locals.
pub type Table = Seq<Seq<Option<bool>>>;

/// `t` with entry `(i, k)` set to `v`.
pub open spec fn set_entry(t: Table, i: int, k: int, v: Option<bool>) -> Table {
    t.update(i, t[i].update(k, v))
}

/// `t` with entry `(i, k)` set to `v` when the operand `k` is a local.
pub open spec fn set_operand(t: Table, i: int, k: Option<usize>, v: bool) -> Table {
    match k {
        Some(k) => set_entry(t, i, k as int, Some(v)),
        None => t,
    }
}

/// The table after recording assignment `a`.
pub open spec fn record_assign(t: Table, a: LocalAssign) -> Table {
    match a.kind {
        AssignKind::Product => set_operand(set_operand(t, a.lhs as int, a.first, true), a.lhs as int, a.second, true),
        AssignKind::Quotient => set_operand(
            set_operand(t, a.lhs as int, a.first, true),
            a.lhs as int,
            a.second,
            false,
        ),
        AssignKind::Copy => set_operand(t, a.lhs as int, a.first, true),
        AssignKind::Other => t,
    }
}

/// Every local is a product of itself, and nothing else is known.
pub open spec fn diagonal(n: nat) -> Table {
    Seq::new(n, |i: int| Seq::new(n, |k: int| if i == k { Some(true) } else { None }))
}

/// The direct relations of `n` locals under the assignments `stmts`, in order.
pub open spec fn direct_table(n: nat, stmts: Seq<LocalAssign>) -> Table
    decreases stmts.len(),
{
    if stmts.len() == 0 {
        diagonal(n)
    } else {
        record_assign(direct_table(n, stmts.drop_last()), stmts.last())
    }
}

/// Chaining `i` to `k` through `j`: when `i` relates to `j` and `j` to `k`, `i` relates to
/// `k` as a product when both relations agree, as a quotient otherwise.
pub open spec fn chain(t: Table, j: int, i: int, k: int) -> Table {
    if i != k && t[i][j] is Some && t[j][k] is Some {
        set_entry(t, i, k, Some(t[i][j]->Some_0 == t[j][k]->Some_0))
    } else {
        t
    }
}

/// The table after chaining row `i` through `j` for the columns below `k`, in order.
pub open spec fn chain_row(t: Table, j: int, i: int, k: int) -> Table
    decreases k,
{
    if k <= 0 {
        t
    } else {
        chain(chain_row(t, j, i, k - 1), j, i, k - 1)
    }
}

/// The table after chaining the rows below `i` through `j`, in order.
pub open spec fn chain_rows(t: Table, j: int, i: int) -> Table
    decreases i,
{
    if i <= 0 {
        t
    } else {
        chain_row(chain_rows(t, j, i - 1), j, i - 1, t.len() as int)
    }
}

/// The table after chaining through the locals below `j`, in order.
pub open spec fn chain_all(t: Table, j: int) -> Table
    decreases j,
{
    if j <= 0 {
        t
    } else {
        chain_rows(chain_all(t, j - 1), j - 1, t.len() as int)
    }
}

/// The relations of `n` locals under the assignments `stmts`.
pub open spec fn product_table(n: nat, stmts: Seq<LocalAssign>) -> Table {
    chain_all(direct_table(n, stmts), n as int)
}

/// `t` is an `n` by `n` table.
pub open spec fn square(t: Table, n: nat) -> bool {
    &&& t.len() == n
    &&& forall|i: int| 0 <= i < n ==> (#[trigger] t[i]).len() == n
}

/// Every local an assignment names is one of the `n` locals.
pub open spec fn assigns_in_bounds(stmts: Seq<LocalAssign>, n: nat) -> bool {
    forall|s: int|
        0 <= s < stmts.len() ==> {
            let a = #[trigger] stmts[s];
            &&& a.lhs < n
            &&& (a.first matches Some(k) ==> k < n)
            &&& (a.second matches Some(k) ==> k < n)
        }
}

proof fn lemma_chain_square(t: Table, n: nat, j: int, i: int, k: int)
    requires
        square(t, n),
        0 <= i < n,
        0 <= k < n,
    ensures
        square(chain(t, j, i, k), n),
{
}

proof fn lemma_chain_row_square(t: Table, n: nat, j: int, i: int, k: int)
    requires
        square(t, n),
        0 <= i < n,
        0 <= k <= n,
    ensures
        square(chain_row(t, j, i, k), n),
        chain_row(t, j, i, k).len() == t.len(),
    decreases k,
{
    if k > 0 {
        lemma_chain_row_square(t, n, j, i, k - 1);
        lemma_chain_square(chain_row(t, j, i, k - 1), n, j, i, k - 1);
    }
}

proof fn lemma_chain_rows_square(t: Table, n: nat, j: int, i: int)
    requires
        square(t, n),
        0 <= i <= n,
    ensures
        square(chain_rows(t, j, i), n),
    decreases i,
{
    if i > 0 {
        lemma_chain_rows_square(t, n, j, i - 1);
        lemma_chain_row_square(chain_rows(t, j, i - 1), n, j, i - 1, n as int);
    }
}

proof fn lemma_chain_all_square(t: Table, n: nat, j: int)
    requires
        square(t, n),
        0 <= j <= n,
    ensures
        square(chain_all(t, j), n),
    decreases j,
{
    if j > 0 {
        lemma_chain_all_square(t, n, j - 1);
        lemma_chain_rows_square(chain_all(t, j - 1), n, j - 1, n as int);
    }
}

/// Every relation known in `t` is known in `u`, and each local's relation to itself is
/// the same in both.
pub open spec fn keeps_known(t: Table, u: Table, n: nat) -> bool {
    &&& forall|i: int, k: int| 0 <= i < n && 0 <= k < n && (#[trigger] t[i][k]) is Some ==> u[i][k] is Some
    &&& forall|i: int| 0 <= i < n ==> #[trigger] u[i][i] == t[i][i]
}

proof fn lemma_keeps_known_trans(t: Table, u: Table, v: Table, n: nat)
    requires
        keeps_known(t, u, n),
        keeps_known(u, v, n),
    ensures
        keeps_known(t, v, n),
{
    assert forall|i: int, k: int| 0 <= i < n && 0 <= k < n && (#[trigger] t[i][k]) is Some implies v[i][k] is Some by {
        assert(u[i][k] is Some);
    }
    assert forall|i: int| 0 <= i < n implies #[trigger] v[i][i] == t[i][i] by {
        assert(u[i][i] == t[i][i]);
    }
}

proof fn lemma_chain_keeps(t: Table, n: nat, j: int, i: int, k: int)
    requires
        square(t, n),
        0 <= i < n,
        0 <= k < n,
    ensures
        keeps_known(t, chain(t, j, i, k), n),
{
    let u = chain(t, j, i, k);
    assert forall|a: int, b: int| 0 <= a < n && 0 <= b < n && (#[trigger] t[a][b]) is Some implies u[a][b] is Some by {
        if a == i && b == k && i != k && t[i][j] is Some && t[j][k] is Some {
        }
    }
}

proof fn lemma_chain_row_keeps(t: Table, n: nat, j: int, i: int, k: int)
    requires
        square(t, n),
        0 <= i < n,
        0 <= k <= n,
    ensures
        keeps_known(t, chain_row(t, j, i, k), n),
    decreases k,
{
    if k > 0 {
        lemma_chain_row_keeps(t, n, j, i, k - 1);
        lemma_chain_row_square(t, n, j, i, k - 1);
        lemma_chain_keeps(chain_row(t, j, i, k - 1), n, j, i, k - 1);
        lemma_keeps_known_trans(t, chain_row(t, j, i, k - 1), chain_row(t, j, i, k), n);
    }
}

proof fn lemma_chain_rows_keeps(t: Table, n: nat, j: int, i: int)
    requires
        square(t, n),
        0 <= i <= n,
    ensures
        keeps_known(t, chain_rows(t, j, i), n),
    decreases i,
{
    if i > 0 {
        lemma_chain_rows_keeps(t, n, j, i - 1);
        lemma_chain_rows_square(t, n, j, i - 1);
        let u = chain_rows(t, j, i - 1);
        assert(u.len() == t.len());
        lemma_chain_row_keeps(u, n, j, i - 1, n as int);
        lemma_keeps_known_trans(t, u, chain_rows(t, j, i), n);
    }
}

proof fn lemma_chain_all_keeps(t: Table, n: nat, j: int)
    requires
        square(t, n),
        0 <= j <= n,
    ensures
        keeps_known(t, chain_all(t, j), n),
    decreases j,
{
    if j > 0 {
        lemma_chain_all_keeps(t, n, j - 1);
        lemma_chain_all_square(t, n, j - 1);
        let u = chain_all(t, j - 1);
        assert(u.len() == t.len());
        lemma_chain_rows_keeps(u, n, j - 1, n as int);
        lemma_keeps_known_trans(t, u, chain_all(t, j), n);
    }
}

proof fn lemma_direct_square(n: nat, stmts: Seq<LocalAssign>)
    requires
        assigns_in_bounds(stmts, n),
    ensures
        square(direct_table(n, stmts), n),
    decreases stmts.len(),
{
    if stmts.len() > 0 {
        let init = stmts.drop_last();
        assert forall|s: int| 0 <= s < init.len() implies {
            let a = #[trigger] init[s];
            &&& a.lhs < n
            &&& (a.first matches Some(k) ==> k < n)
            &&& (a.second matches Some(k) ==> k < n)
        } by {
            assert(init[s] == stmts[s]);
        }
        lemma_direct_square(n, init);
        let a = stmts.last();
        assert(a == stmts[stmts.len() - 1]);
    }
}

/// Chaining never forgets a relation that the assignments give directly, and leaves
/// each local's relation to itself as the assignments gave it.
pub proof fn lemma_product_table_keeps_direct(n: nat, stmts: Seq<LocalAssign>)
    requires
        assigns_in_bounds(stmts, n),
    ensures
        keeps_known(direct_table(n, stmts), product_table(n, stmts), n),
{
    lemma_direct_square(n, stmts);
    lemma_chain_all_keeps(direct_table(n, stmts), n, n as int);
}

/// `p` is a walk through the locals below `n` along relations of `d`: each step goes
/// from a local to one that it is directly related to.
pub open spec fn walk_ok(d: Table, p: Seq<int>, n: nat) -> bool
    decreases p.len(),
{
    if p.len() == 0 {
        false
    } else if p.len() == 1 {
        0 <= p[0] < n
    } else {
        let a = p[p.len() - 2];
        let b = p.last();
        &&& walk_ok(d, p.drop_last(), n)
        &&& 0 <= b < n
        &&& d[a][b] is Some
    }
}

/// The relation a walk composes: a product (`true`) when it takes an even number of
/// quotient steps, a quotient (`false`) otherwise.
pub open spec fn walk_value(d: Table, p: Seq<int>) -> bool
    decreases p.len(),
{
    if p.len() <= 1 {
        true
    } else {
        walk_value(d, p.drop_last()) == d[p[p.len() - 2]][p.last()]->Some_0
    }
}

/// Every relation of `t` between locals below `n` is what some walk along `d` composes.
pub open spec fn witnessed(d: Table, t: Table, n: nat) -> bool {
    forall|i: int, k: int|
        0 <= i < n && 0 <= k < n && (#[trigger] t[i][k]) is Some ==> exists|p: Seq<int>|
            #[trigger] walk_ok(d, p, n) && p[0] == i && p.last() == k && walk_value(d, p) == t[i][k]->Some_0
}

proof fn lemma_walk_join(d: Table, p1: Seq<int>, p2: Seq<int>, n: nat)
    requires
        walk_ok(d, p1, n),
        walk_ok(d, p2, n),
        p1.last() == p2[0],
    ensures
        walk_ok(d, p1 + p2.drop_first(), n),
        (p1 + p2.drop_first())[0] == p1[0],
        (p1 + p2.drop_first()).last() == p2.last(),
        walk_value(d, p1 + p2.drop_first()) == (walk_value(d, p1) == walk_value(d, p2)),
    decreases p2.len(),
{
    let q = p1 + p2.drop_first();
    if p2.len() == 1 {
        assert(q =~= p1);
    } else {
        let p2s = p2.drop_last();
        lemma_walk_join(d, p1, p2s, n);
        assert(q.drop_last() =~= p1 + p2s.drop_first());
        assert(q[q.len() - 2] == p2[p2.len() - 2]);
        assert(q.last() == p2.last());
    }
}

proof fn lemma_direct_witnessed(n: nat, stmts: Seq<LocalAssign>)
    requires
        assigns_in_bounds(stmts, n),
    ensures
        witnessed(direct_table(n, stmts), direct_table(n, stmts), n),
{
    let d = direct_table(n, stmts);
    assert forall|i: int, k: int| 0 <= i < n && 0 <= k < n && (#[trigger] d[i][k]) is Some implies exists|p: Seq<int>|
        #[trigger] walk_ok(d, p, n) && p[0] == i && p.last() == k && walk_value(d, p) == d[i][k]->Some_0 by {
        let p = seq![i, k];
        assert(p.drop_last() =~= seq![i]);
        assert(walk_ok(d, seq![i], n));
        assert(walk_value(d, seq![i]));
        assert(p[p.len() - 2] == i && p.last() == k);
        assert(walk_ok(d, p, n));
        assert(walk_value(d, p) == d[i][k]->Some_0);
    }
}

proof fn lemma_chain_witnessed(d: Table, t: Table, n: nat, j: int, i: int, k: int)
    requires
        square(t, n),
        witnessed(d, t, n),
        0 <= j < n,
        0 <= i < n,
        0 <= k < n,
    ensures
        witnessed(d, chain(t, j, i, k), n),
{
    let u = chain(t, j, i, k);
    if i != k && t[i][j] is Some && t[j][k] is Some {
        assert forall|a: int, b: int| 0 <= a < n && 0 <= b < n && (#[trigger] u[a][b]) is Some implies exists|p: Seq<int>|
            #[trigger] walk_ok(d, p, n) && p[0] == a && p.last() == b && walk_value(d, p) == u[a][b]->Some_0 by {
            if a == i && b == k {
                let p1 = choose|p: Seq<int>|
                    #[trigger] walk_ok(d, p, n) && p[0] == i && p.last() == j && walk_value(d, p) == t[i][j]->Some_0;
                let p2 = choose|p: Seq<int>|
                    #[trigger] walk_ok(d, p, n) && p[0] == j && p.last() == k && walk_value(d, p) == t[j][k]->Some_0;
                lemma_walk_join(d, p1, p2, n);
                let q = p1 + p2.drop_first();
                assert(walk_ok(d, q, n) && q[0] == a && q.last() == b && walk_value(d, q) == u[a][b]->Some_0);
            } else {
                assert(u[a][b] == t[a][b]);
            }
        }
    }
}

proof fn lemma_chain_row_witnessed(d: Table, t: Table, n: nat, j: int, i: int, k: int)
    requires
        square(t, n),
        witnessed(d, t, n),
        0 <= j < n,
        0 <= i < n,
        0 <= k <= n,
    ensures
        witnessed(d, chain_row(t, j, i, k), n),
    decreases k,
{
    if k > 0 {
        lemma_chain_row_witnessed(d, t, n, j, i, k - 1);
        lemma_chain_row_square(t, n, j, i, k - 1);
        lemma_chain_witnessed(d, chain_row(t, j, i, k - 1), n, j, i, k - 1);
    }
}

proof fn lemma_chain_rows_witnessed(d: Table, t: Table, n: nat, j: int, i: int)
    requires
        square(t, n),
        witnessed(d, t, n),
        0 <= j < n,
        0 <= i <= n,
    ensures
        witnessed(d, chain_rows(t, j, i), n),
    decreases i,
{
    if i > 0 {
        lemma_chain_rows_witnessed(d, t, n, j, i - 1);
        lemma_chain_rows_square(t, n, j, i - 1);
        let u = chain_rows(t, j, i - 1);
        assert(u.len() == t.len());
        lemma_chain_row_witnessed(d, u, n, j, i - 1, n as int);
    }
}

proof fn lemma_chain_all_witnessed(d: Table, t: Table, n: nat, j: int)
    requires
        square(t, n),
        witnessed(d, t, n),
        0 <= j <= n,
    ensures
        witnessed(d, chain_all(t, j), n),
    decreases j,
{
    if j > 0 {
        lemma_chain_all_witnessed(d, t, n, j - 1);
        lemma_chain_all_square(t, n, j - 1);
        let u = chain_all(t, j - 1);
        assert(u.len() == t.len());
        lemma_chain_rows_witnessed(d, u, n, j - 1, n as int);
    }
}

/// What the product table means: when local `i` is recorded as a product of local `k`
/// (`Some(true)`) or as a quotient of it (`Some(false)`), a chain of assignments leads
/// from `i` to `k`, each step from an assigned local to one of its operands, and the
/// chain takes an even number of divisor steps for a product and an odd number for a
/// quotient.
pub proof fn lemma_product_table_sound(n: nat, stmts: Seq<LocalAssign>, i: int, k: int)
    requires
        assigns_in_bounds(stmts, n),
        0 <= i < n,
        0 <= k < n,
        product_table(n, stmts)[i][k] is Some,
    ensures
        exists|p: Seq<int>|
            #[trigger] walk_ok(direct_table(n, stmts), p, n) && p[0] == i && p.last() == k && walk_value(
                direct_table(n, stmts),
                p,
            ) == product_table(n, stmts)[i][k]->Some_0,
{
    let d = direct_table(n, stmts);
    lemma_direct_square(n, stmts);
    lemma_direct_witnessed(n, stmts);
    lemma_chain_all_witnessed(d, d, n, n as int);
}

/// Chaining row `i` changes no other row.
proof fn lemma_chain_row_other_rows(t: Table, n: nat, j: int, i: int, k: int)
    requires
        square(t, n),
        0 <= i < n,
        0 <= k <= n,
    ensures
        forall|r: int| 0 <= r < n && r != i ==> #[trigger] chain_row(t, j, i, k)[r] == t[r],
    decreases k,
{
    if k > 0 {
        lemma_chain_row_other_rows(t, n, j, i, k - 1);
        lemma_chain_row_square(t, n, j, i, k - 1);
    }
}

/// The relations between the locals of a body.
#[derive(Debug)]
pub struct BodyInfoCache {
    product_of: Vec<Vec<Option<bool>>>,
}

impl BodyInfoCache {
    /// The relation table.
    pub closed spec fn table(&self) -> Table {
        self.product_of@.map_values(|r: Vec<Option<bool>>| r@)
    }

    /// The number of locals.
    pub closed spec fn num_locals(&self) -> nat {
        self.product_of@.len()
    }

    #[verifier::type_invariant]
    closed spec fn inv(self) -> bool {
        square(self.table(), self.num_locals())
    }

    /// The relations of the `n` locals of a body with the assignments `stmts`.
    pub fn new(n: usize, stmts: &Vec<LocalAssign>) -> (r: Self)
        requires
            assigns_in_bounds(stmts@, n as nat),
        ensures
            r.num_locals() == n,
            r.table() == product_table(n as nat, stmts@),
    {
        let mut t: Vec<Vec<Option<bool>>> = Vec::new();
        for i in 0..n
            invariant
                t@.len() == i,
                forall|r: int| 0 <= r < i ==> (#[trigger] t@[r])@ == diagonal(n as nat)[r],
        {
            let mut row: Vec<Option<bool>> = Vec::new();
            for k in 0..n
                invariant
                    row@ == Seq::new(k as nat, |c: int| if i == c { Some(true) } else { None }),
            {
                if i == k {
                    row.push(Some(true));
                } else {
                    row.push(None);
                }
                assert(row@ =~= Seq::new((k + 1) as nat, |c: int| if i == c { Some(true) } else { None }));
            }
            assert(row@ =~= diagonal(n as nat)[i as int]);
            t.push(row);
        }
        assert(t@.map_values(|r: Vec<Option<bool>>| r@) =~= direct_table(n as nat, stmts@.subrange(0, 0)));
        for s in 0..stmts.len()
            invariant
                n == n,
                assigns_in_bounds(stmts@, n as nat),
                t@.map_values(|r: Vec<Option<bool>>| r@) == direct_table(n as nat, stmts@.subrange(0, s as int)),
                square(t@.map_values(|r: Vec<Option<bool>>| r@), n as nat),
        {
            let a = stmts[s];
            proof {
                assert(stmts@.subrange(0, s + 1).drop_last() =~= stmts@.subrange(0, s as int));
                assert(stmts@[s as int] == a);
            }
            match a.kind {
                AssignKind::Product => {
                    set_some(&mut t, a.lhs, a.first, true);
                    set_some(&mut t, a.lhs, a.second, true);
                },
                AssignKind::Quotient => {
                    set_some(&mut t, a.lhs, a.first, true);
                    set_some(&mut t, a.lhs, a.second, false);
                },
                AssignKind::Copy => {
                    set_some(&mut t, a.lhs, a.first, true);
                },
                AssignKind::Other => {},
            }
        }
        assert(stmts@.subrange(0, stmts@.len() as int) =~= stmts@);
        let ghost t0 = t@.map_values(|r: Vec<Option<bool>>| r@);
        for j in 0..n
            invariant
                square(t0, n as nat),
                t@.map_values(|r: Vec<Option<bool>>| r@) == chain_all(t0, j as int),
                square(chain_all(t0, j as int), n as nat),
        {
            let ghost tj = t@.map_values(|r: Vec<Option<bool>>| r@);
            for i in 0..n
                invariant
                    j < n,
                    square(t0, n as nat),
                    tj == chain_all(t0, j as int),
                    square(tj, n as nat),
                    t@.map_values(|r: Vec<Option<bool>>| r@) == chain_rows(tj, j as int, i as int),
                    square(chain_rows(tj, j as int, i as int), n as nat),
            {
                proof {
                    lemma_chain_rows_square(tj, n as nat, j as int, i as int);
                }
                let ghost ti = t@.map_values(|r: Vec<Option<bool>>| r@);
                let mut row = copy_row(&t[i]);
                for k in 0..n
                    invariant
                        j < n,
                        i < n,
                        square(ti, n as nat),
                        ti == t@.map_values(|r: Vec<Option<bool>>| r@),
                        square(chain_row(ti, j as int, i as int, k as int), n as nat),
                        row@ == chain_row(ti, j as int, i as int, k as int)[i as int],
                {
                    proof {
                        lemma_chain_row_square(ti, n as nat, j as int, i as int, k as int);
                        lemma_chain_row_other_rows(ti, n as nat, j as int, i as int, k as int);
                        lemma_chain_row_square(ti, n as nat, j as int, i as int, (k + 1) as int);
                        lemma_chain_row_other_rows(ti, n as nat, j as int, i as int, (k + 1) as int);
                    }
                    let ghost cur = chain_row(ti, j as int, i as int, k as int);
                    if i != k {
                        let via = row[j];
                        let onward = if j == i {
                            row[k]
                        } else {
                            assert(t@[j as int]@ == ti[j as int]);
                            t[j][k]
                        };
                        assert(via == cur[i as int][j as int]);
                        assert(onward == cur[j as int][k as int]);
                        match (via, onward) {
                            (Some(s1), Some(s2)) => {
                                row.set(k, Some(s1 == s2));
                            },
                            _ => {},
                        }
                    }
                    assert(row@ =~= chain_row(ti, j as int, i as int, (k + 1) as int)[i as int]);
                }
                t.set(i, row);
                proof {
                    lemma_chain_row_other_rows(ti, n as nat, j as int, i as int, n as int);
                    lemma_chain_row_square(ti, n as nat, j as int, i as int, n as int);
                    let nt = chain_row(ti, j as int, i as int, n as int);
                    assert(t@.map_values(|r: Vec<Option<bool>>| r@) =~= nt);
                    assert(chain_rows(tj, j as int, (i + 1) as int) == nt);
                    lemma_chain_rows_square(tj, n as nat, j as int, (i + 1) as int);
                }
            }
            proof {
                lemma_chain_all_square(t0, n as nat, (j + 1) as int);
            }
        }
        BodyInfoCache { product_of: t }
    }

    /// Whether each local of `locals` is a product of the next one.
    pub fn product_of(&self, locals: &Vec<usize>) -> (r: bool)
        requires
            forall|i: int| 0 <= i < locals@.len() ==> #[trigger] locals@[i] < self.num_locals(),
        ensures
            r == forall|w: int|
                0 <= w < locals@.len() - 1 ==> #[trigger] self.table()[locals@[w] as int][locals@[w + 1] as int]
                    == Some(true),
    {
        proof {
            use_type_invariant(self);
        }
        let n = locals.len();
        if n < 2 {
            return true;
        }
        let mut w: usize = 0;
        while w + 1 < n
            invariant
                n == locals@.len(),
                w < n,
                square(self.table(), self.num_locals()),
                forall|i: int| 0 <= i < locals@.len() ==> #[trigger] locals@[i] < self.num_locals(),
                forall|x: int|
                    0 <= x < w ==> #[trigger] self.table()[locals@[x] as int][locals@[x + 1] as int] == Some(true),
            decreases n - w,
        {
            let a = locals[w];
            let b = locals[w + 1];
            assert(self.product_of@[a as int]@ == self.table()[a as int]);
            let ok = match self.product_of[a][b] {
                Some(v) => v,
                None => false,
            };
            if !ok {
                assert(self.table()[locals@[w as int] as int][locals@[w + 1] as int] != Some(true));
                return false;
            }
            w = w + 1;
        }
        true
    }
}

fn copy_row(row: &Vec<Option<bool>>) -> (r: Vec<Option<bool>>)
    ensures
        r@ == row@,
{
    let mut r: Vec<Option<bool>> = Vec::new();
    for i in 0..row.len()
        invariant
            r@ == row@.subrange(0, i as int),
    {
        r.push(row[i]);
    }
    assert(r@ =~= row@);
    r
}

/// Set entry `(i, k)` of `t` to `Some(v)` when `k` is a local.
fn set_some(t: &mut Vec<Vec<Option<bool>>>, i: usize, k: Option<usize>, v: bool)
    requires
        i < old(t)@.len(),
        square(old(t)@.map_values(|r: Vec<Option<bool>>| r@), old(t)@.len()),
        k matches Some(x) ==> x < old(t)@.len(),
    ensures
        final(t)@.map_values(|r: Vec<Option<bool>>| r@) == set_operand(
            old(t)@.map_values(|r: Vec<Option<bool>>| r@),
            i as int,
            k,
            v,
        ),
        square(final(t)@.map_values(|r: Vec<Option<bool>>| r@), old(t)@.len()),
{
    match k {
        Some(k) => {
            let ghost before = t@.map_values(|r: Vec<Option<bool>>| r@);
            assert(t@[i as int]@ == before[i as int]);
            let mut row = copy_row(&t[i]);
            row.set(k, Some(v));
            t.set(i, row);
            assert(t@.map_values(|r: Vec<Option<bool>>| r@) =~= set_entry(before, i as int, k as int, Some(v)));
        },
        None => {},
    }
}

} // verus!
