use vstd::prelude::*;

verus! {

/// Whether pair `p` comes before pair `q` in lexicographic order.
pub open spec fn pair_before(p: (usize, usize), q: (usize, usize)) -> bool {
    p.0 < q.0 || (p.0 == q.0 && p.1 < q.1)
}

/// Whether the pair `(i, j)` occurs in `pairs`.
pub open spec fn has_pair(pairs: Seq<(usize, usize)>, i: int, j: int) -> bool {
    pairs.contains((i as usize, j as usize))
}

/// Appending to a sequence keeps what it contained, and adds the new element.
proof fn lemma_push_contains<T>(s: Seq<T>, x: T)
    ensures
        s.push(x).contains(x),
        forall|y: T| s.contains(y) ==> #[trigger] s.push(x).contains(y),
{
    assert(s.push(x)[s.len() as int] == x);
    assert forall|y: T| s.contains(y) implies #[trigger] s.push(x).contains(y) by {
        let k = choose|k: int| 0 <= k < s.len() && s[k] == y;
        assert(s.push(x)[k] == y);
    }
}

/// The indices of the agents that act on the agent with id `own_id`: every
/// agent whose id differs from `own_id`, in the order of `ids`. An agent never
/// acts on itself, and agents that share an id do not act on each other.
pub fn interaction_partners(ids: &Vec<String>, own_id: &String) -> (r: Vec<usize>)
    ensures
        forall|k: int| 0 <= k < r.len() ==> #[trigger] r[k] < ids.len() && ids[r[k] as int]@ != own_id@,
        forall|k: int, l: int| 0 <= k < l < r.len() ==> r[k] < r[l],
        forall|j: int| 0 <= j < ids.len() && ids[j]@ != own_id@ ==> r@.contains(j as usize),
{
    let mut r: Vec<usize> = Vec::new();
    let n = ids.len();
    let mut i: usize = 0;
    while i < n
        invariant
            n == ids.len(),
            i <= n,
            forall|k: int| 0 <= k < r.len() ==> #[trigger] r[k] < i && ids[r[k] as int]@ != own_id@,
            forall|k: int, l: int| 0 <= k < l < r.len() ==> r[k] < r[l],
            forall|j: int| 0 <= j < i && ids[j]@ != own_id@ ==> r@.contains(j as usize),
        decreases n - i,
    {
        let ghost prev = r@;
        if ids[i] != *own_id {
            r.push(i);
            proof {
                lemma_push_contains(prev, i);
            }
        }
        i = i + 1;
    }
    r
}

/// The pairs `(i, j)` with `i < j < n`, each once, in lexicographic order: the
/// pairs of agents whose interaction energies make up the total energy of `n`
/// agents. There are `n (n - 1) / 2` of them.
pub fn interaction_pairs(n: usize) -> (r: Vec<(usize, usize)>)
    ensures
        forall|k: int| 0 <= k < r.len() ==> #[trigger] r[k].0 < r[k].1 && r[k].1 < n,
        forall|k: int, l: int| 0 <= k < l < r.len() ==> pair_before(r[k], r[l]),
        forall|i: int, j: int| 0 <= i < j < n ==> #[trigger] has_pair(r@, i, j),
        r.len() == n * (n - 1) / 2,
{
    let mut r: Vec<(usize, usize)> = Vec::new();
    let mut i: usize = 0;
    while i < n
        invariant
            i <= n,
            forall|k: int| 0 <= k < r.len() ==> #[trigger] r[k].0 < r[k].1 && r[k].1 < n && r[k].0 < i,
            forall|k: int, l: int| 0 <= k < l < r.len() ==> pair_before(r[k], r[l]),
            forall|a: int, b: int| 0 <= a < i && a < b < n ==> #[trigger] has_pair(r@, a, b),
            r.len() * 2 == i * (2 * n - i - 1),
        decreases n - i,
    {
        let ghost start = r.len();
        let mut j: usize = i + 1;
        while j < n
            invariant
                i < n,
                i + 1 <= j <= n,
                start <= r.len(),
                r.len() == start + (j - (i + 1)),
                forall|k: int| 0 <= k < r.len() ==> #[trigger] r[k].0 < r[k].1 && r[k].1 < n && r[k].0 <= i,
                forall|k: int| start <= k < r.len() ==> #[trigger] r[k].0 == i && r[k].1 < j,
                forall|k: int| 0 <= k < start ==> #[trigger] r[k].0 < i,
                forall|k: int, l: int| 0 <= k < l < r.len() ==> pair_before(r[k], r[l]),
                forall|a: int, b: int| 0 <= a < i && a < b < n ==> #[trigger] has_pair(r@, a, b),
                forall|b: int| i < b < j ==> #[trigger] has_pair(r@, i as int, b),
            decreases n - j,
        {
            let ghost prev = r@;
            r.push((i, j));
            proof {
                lemma_push_contains(prev, (i, j));
                assert(r@ == prev.push((i, j)));
                assert(r[r.len() - 1] == (i, j));
                assert(forall|k: int| 0 <= k < prev.len() ==> r[k] == prev[k]);
                assert forall|k: int| start <= k < r.len() implies #[trigger] r[k].0 == i && r[k].1
                    < j + 1 by {
                    if k < prev.len() {
                        assert(r[k] == prev[k]);
                    }
                }
                assert forall|a: int, b: int| 0 <= a < i && a < b < n implies #[trigger] has_pair(
                    r@,
                    a,
                    b,
                ) by {
                    assert(has_pair(prev, a, b));
                }
                assert forall|b: int| i < b < j + 1 implies #[trigger] has_pair(r@, i as int, b) by {
                    if b < j {
                        assert(has_pair(prev, i as int, b));
                    }
                }
            }
            j = j + 1;
            proof {
                assert(forall|k: int| start <= k < r.len() ==> r[k].0 == i);
                assert(forall|k: int| start <= k < r.len() ==> r[k].1 < j);
            }
        }
        proof {
            assert(forall|k: int| 0 <= k < r.len() ==> r[k].0 <= i);
            assert(r.len() == start + (n - (i + 1)));
            assert((i + 1) * (2 * n - (i + 1) - 1) == i * (2 * n - i - 1) + 2 * (n - (i + 1)))
                by (nonlinear_arith);
        }
        i = i + 1;
    }
    proof {
        assert(n * (n - 1) == n * (2 * n - n - 1));
        assert(r.len() == n * (n - 1) / 2) by (nonlinear_arith)
            requires r.len() * 2 == n * (2 * n - n - 1), n * (n - 1) == n * (2 * n - n - 1);
    }
    r
}

} // verus!
