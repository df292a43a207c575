use vstd::math::{max, min};
use vstd::prelude::*;

use crate::dist_matrix::{
    has_zero_diagonal, is_matrix, is_rectangular, lemma_transpose_matrix, matrix_view, n_cols,
    n_rows, transpose,
};
use crate::errors::CurveError;

verus! {

/// Coupling measure of the prefix pair ending at row `i` and column `j` of the
/// distance matrix `d`: the shortest leash with which two walkers, moving
/// forward only, can go from (0, 0) to (i, j).
pub open spec fn frechet_cell(d: Seq<Seq<u64>>, i: nat, j: nat) -> int
    decreases i + j,
{
    let x = d[i as int][j as int] as int;
    if i == 0 && j == 0 {
        x
    } else if i == 0 {
        max(frechet_cell(d, 0, (j - 1) as nat), x)
    } else if j == 0 {
        max(frechet_cell(d, (i - 1) as nat, 0), x)
    } else {
        max(
            min(
                min(frechet_cell(d, (i - 1) as nat, j), frechet_cell(d, i, (j - 1) as nat)),
                frechet_cell(d, (i - 1) as nat, (j - 1) as nat),
            ),
            x,
        )
    }
}

/// Discrete Fréchet distance read off a distance matrix: the coupling measure
/// of its last row and last column.
pub open spec fn frechet_value(d: Seq<Seq<u64>>) -> int {
    frechet_cell(d, (n_rows(d) - 1) as nat, (n_cols(d) - 1) as nat)
}

fn max_u64(a: u64, b: u64) -> (r: u64)
    ensures
        r == max(a as int, b as int),
{
    if a >= b {
        a
    } else {
        b
    }
}

fn min_u64(a: u64, b: u64) -> (r: u64)
    ensures
        r == min(a as int, b as int),
{
    if a <= b {
        a
    } else {
        b
    }
}

/// Discrete Fréchet distance over a matrix of pairwise distances, given as
/// keys whose order is the order of the distances.
///
/// Row `i`, column `j` holds the distance between point `i` of the first
/// sequence and point `j` of the second. Only comparisons are made, so the
/// result is the key of the entry that realises the distance. An empty
/// matrix stands for an empty sequence and is refused.
pub fn frechet_walk(dist: &Vec<Vec<u64>>) -> (r: Result<u64, CurveError>)
    requires
        is_rectangular(matrix_view(dist)),
    ensures
        is_matrix(matrix_view(dist)) ==> r is Ok && r->Ok_0 == frechet_value(matrix_view(dist)),
        !is_matrix(matrix_view(dist)) ==> r == Err::<u64, CurveError>(CurveError::EmptySequence),
{
    let ghost d = matrix_view(dist);
    let n = dist.len();
    if n == 0 {
        return Err(CurveError::EmptySequence);
    }
    let m = dist[0].len();
    if m == 0 {
        return Err(CurveError::EmptySequence);
    }
    assert(forall|i: int| 0 <= i < n ==> #[trigger] d[i] == dist@[i]@);
    let mut prev: Vec<u64> = Vec::new();
    let mut j: usize = 0;
    while j < m
        invariant
            d == matrix_view(dist),
            is_rectangular(d),
            n == d.len(),
            m == n_cols(d),
            0 < m,
            j <= m,
            forall|i: int| 0 <= i < n ==> #[trigger] d[i] == dist@[i]@,
            prev@.len() == j,
            forall|k: int| 0 <= k < j ==> prev@[k] == frechet_cell(d, 0, k as nat),
        decreases m - j,
    {
        let x = dist[0][j];
        let c = if j == 0 {
            x
        } else {
            max_u64(prev[j - 1], x)
        };
        prev.push(c);
        j += 1;
    }
    let mut i: usize = 1;
    while i < n
        invariant
            d == matrix_view(dist),
            is_rectangular(d),
            n == d.len(),
            m == n_cols(d),
            0 < m,
            1 <= i <= n,
            forall|i: int| 0 <= i < n ==> #[trigger] d[i] == dist@[i]@,
            prev@.len() == m,
            forall|k: int| 0 <= k < m ==> prev@[k] == frechet_cell(d, (i - 1) as nat, k as nat),
        decreases n - i,
    {
        assert(d[i as int].len() == m);
        assert(dist@[i as int]@.len() == m);
        let mut cur: Vec<u64> = Vec::new();
        let mut j: usize = 0;
        while j < m
            invariant
                d == matrix_view(dist),
                is_rectangular(d),
                n == d.len(),
                m == n_cols(d),
                1 <= i < n,
                j <= m,
                dist@[i as int]@.len() == m,
                forall|i: int| 0 <= i < n ==> #[trigger] d[i] == dist@[i]@,
                prev@.len() == m,
                forall|k: int|
                    0 <= k < m ==> prev@[k] == frechet_cell(d, (i - 1) as nat, k as nat),
                cur@.len() == j,
                forall|k: int| 0 <= k < j ==> cur@[k] == frechet_cell(d, i as nat, k as nat),
            decreases m - j,
        {
            let x = dist[i][j];
            let c = if j == 0 {
                max_u64(prev[0], x)
            } else {
                max_u64(min_u64(min_u64(prev[j], cur[j - 1]), prev[j - 1]), x)
            };
            cur.push(c);
            j += 1;
        }
        prev = cur;
        i += 1;
    }
    Ok(prev[m - 1])
}

/// The coupling measure of a cell is at least the distance stored in it.
pub proof fn lemma_frechet_cell_at_least_entry(d: Seq<Seq<u64>>, i: nat, j: nat)
    ensures
        frechet_cell(d, i, j) >= d[i as int][j as int],
{
}

/// The coupling measure of a cell is the distance stored in some cell at or
/// before it: the recurrence only picks among values it is given.
pub proof fn lemma_frechet_cell_is_entry(d: Seq<Seq<u64>>, i: nat, j: nat)
    ensures
        exists|a: nat, b: nat| a <= i && b <= j && frechet_cell(d, i, j) == d[a as int][b as int],
    decreases i + j,
{
    let x = d[i as int][j as int] as int;
    if frechet_cell(d, i, j) == x {
        assert(frechet_cell(d, i, j) == d[i as int][j as int]);
    } else if i == 0 {
        lemma_frechet_cell_is_entry(d, 0, (j - 1) as nat);
    } else if j == 0 {
        lemma_frechet_cell_is_entry(d, (i - 1) as nat, 0);
    } else {
        lemma_frechet_cell_is_entry(d, (i - 1) as nat, j);
        lemma_frechet_cell_is_entry(d, i, (j - 1) as nat);
        lemma_frechet_cell_is_entry(d, (i - 1) as nat, (j - 1) as nat);
    }
}

/// The Fréchet distance is one of the pairwise distances: that of the pair
/// of points that needs the longest leash on the best coupling.
pub proof fn frechet_is_entry(d: Seq<Seq<u64>>)
    requires
        is_matrix(d),
    ensures
        exists|a: int, b: int|
            0 <= a < n_rows(d) && 0 <= b < n_cols(d) && frechet_value(d) == d[a][b],
{
    lemma_frechet_cell_is_entry(d, (n_rows(d) - 1) as nat, (n_cols(d) - 1) as nat);
    let (a, b) = choose|a: nat, b: nat|
        a <= n_rows(d) - 1 && b <= n_cols(d) - 1 && frechet_value(d) == d[a as int][b as int];
    assert(0 <= a < n_rows(d) && 0 <= b < n_cols(d) && frechet_value(d) == d[a as int][b as int]);
}

proof fn lemma_frechet_cell_relabel(
    d: Seq<Seq<u64>>,
    e: Seq<Seq<u64>>,
    f: spec_fn(int) -> int,
    i: nat,
    j: nat,
)
    requires
        is_matrix(d),
        n_rows(e) == n_rows(d),
        forall|x: int, y: int| x < y ==> #[trigger] f(x) < #[trigger] f(y),
        forall|a: int, b: int|
            0 <= a < n_rows(d) && 0 <= b < n_cols(d) ==> e[a][b] == f(#[trigger] d[a][b] as int),
        i < n_rows(d),
        j < n_cols(d),
    ensures
        frechet_cell(e, i, j) == f(frechet_cell(d, i, j)),
    decreases i + j,
{
    if i > 0 {
        lemma_frechet_cell_relabel(d, e, f, (i - 1) as nat, j);
    }
    if j > 0 {
        lemma_frechet_cell_relabel(d, e, f, i, (j - 1) as nat);
    }
    if i > 0 && j > 0 {
        lemma_frechet_cell_relabel(d, e, f, (i - 1) as nat, (j - 1) as nat);
    }
    assert(d[i as int].len() == n_cols(d));
    let x = d[i as int][j as int] as int;
    assert(e[i as int][j as int] == f(x));
    assert(forall|p: int, q: int| #[trigger] max(f(p), f(q)) == f(max(p, q))) by {
        assert forall|p: int, q: int| #[trigger] max(f(p), f(q)) == f(max(p, q)) by {
            if p < q {
                assert(f(p) < f(q));
            } else if q < p {
                assert(f(q) < f(p));
            }
        }
    }
    assert(forall|p: int, q: int| #[trigger] min(f(p), f(q)) == f(min(p, q))) by {
        assert forall|p: int, q: int| #[trigger] min(f(p), f(q)) == f(min(p, q)) by {
            if p < q {
                assert(f(p) < f(q));
            } else if q < p {
                assert(f(q) < f(p));
            }
        }
    }
}

/// The walk reads the distances only through their order: relabelling every
/// entry by one strictly increasing map relabels the result by the same map.
/// So the keys handed to the walk may be any order-preserving encoding of the
/// distances, and the key it returns is that of the Fréchet distance.
pub proof fn frechet_order_invariant(d: Seq<Seq<u64>>, e: Seq<Seq<u64>>, f: spec_fn(int) -> int)
    requires
        is_matrix(d),
        n_rows(e) == n_rows(d),
        n_cols(e) == n_cols(d),
        forall|x: int, y: int| x < y ==> #[trigger] f(x) < #[trigger] f(y),
        forall|a: int, b: int|
            0 <= a < n_rows(d) && 0 <= b < n_cols(d) ==> e[a][b] == f(#[trigger] d[a][b] as int),
    ensures
        frechet_value(e) == f(frechet_value(d)),
{
    lemma_frechet_cell_relabel(d, e, f, (n_rows(d) - 1) as nat, (n_cols(d) - 1) as nat);
}

/// Exchanging the two sequences transposes the distance matrix, and the
/// coupling measure of a cell is that of the mirrored cell of the transpose.
pub proof fn lemma_frechet_cell_transpose(d: Seq<Seq<u64>>, i: nat, j: nat)
    requires
        is_matrix(d),
        i < n_rows(d),
        j < n_cols(d),
    ensures
        frechet_cell(d, i, j) == frechet_cell(transpose(d), j, i),
    decreases i + j,
{
    lemma_transpose_matrix(d);
    if i > 0 {
        lemma_frechet_cell_transpose(d, (i - 1) as nat, j);
    }
    if j > 0 {
        lemma_frechet_cell_transpose(d, i, (j - 1) as nat);
    }
    if i > 0 && j > 0 {
        lemma_frechet_cell_transpose(d, (i - 1) as nat, (j - 1) as nat);
    }
}

/// Symmetry: the Fréchet distance does not depend on which sequence comes
/// first. Swapping the sequences transposes their distance matrix under any
/// symmetric metric, and the distance of the transpose is the same.
pub proof fn frechet_symmetric(d: Seq<Seq<u64>>)
    requires
        is_matrix(d),
    ensures
        is_matrix(transpose(d)),
        frechet_value(transpose(d)) == frechet_value(d),
{
    lemma_transpose_matrix(d);
    lemma_frechet_cell_transpose(d, (n_rows(d) - 1) as nat, (n_cols(d) - 1) as nat);
}

proof fn lemma_frechet_diagonal_zero(d: Seq<Seq<u64>>, i: nat)
    requires
        is_matrix(d),
        has_zero_diagonal(d),
        i < n_rows(d),
    ensures
        frechet_cell(d, i, i) == 0,
    decreases i,
{
    if i > 0 {
        lemma_frechet_diagonal_zero(d, (i - 1) as nat);
        lemma_frechet_cell_at_least_entry(d, (i - 1) as nat, i);
        lemma_frechet_cell_at_least_entry(d, i, (i - 1) as nat);
    }
}

/// Identity: a sequence is at Fréchet distance zero from itself. Its distance
/// matrix against itself is square with a zero diagonal, and walking that
/// diagonal never needs a leash.
pub proof fn frechet_identity(d: Seq<Seq<u64>>)
    requires
        is_matrix(d),
        has_zero_diagonal(d),
    ensures
        frechet_value(d) == 0,
{
    lemma_frechet_diagonal_zero(d, (n_rows(d) - 1) as nat);
}

} // verus!
