use vstd::math::min;
use vstd::prelude::*;

use crate::dist_matrix::{
    has_zero_diagonal, is_matrix, is_rectangular, lemma_transpose_matrix, matrix_view, n_cols,
    n_rows, transpose,
};
use crate::errors::CurveError;

verus! {

/// Cumulative cost of the cheapest monotone alignment of the prefixes ending
/// at row `i` and column `j` of the distance matrix `d`.
pub open spec fn dtw_cell(d: Seq<Seq<u64>>, i: nat, j: nat) -> int
    decreases i + j,
{
    let x = d[i as int][j as int] as int;
    if i == 0 && j == 0 {
        x
    } else if i == 0 {
        dtw_cell(d, 0, (j - 1) as nat) + x
    } else if j == 0 {
        dtw_cell(d, (i - 1) as nat, 0) + x
    } else {
        x + min(
            min(dtw_cell(d, (i - 1) as nat, j), dtw_cell(d, i, (j - 1) as nat)),
            dtw_cell(d, (i - 1) as nat, (j - 1) as nat),
        )
    }
}

/// Dynamic time warping cost read off a distance matrix: the cumulative cost
/// of its last row and last column.
pub open spec fn dtw_value(d: Seq<Seq<u64>>) -> int {
    dtw_cell(d, (n_rows(d) - 1) as nat, (n_cols(d) - 1) as nat)
}

/// `x`, or `u64::MAX` where `x` is larger.
pub open spec fn saturate(x: int) -> int {
    if x > u64::MAX {
        u64::MAX as int
    } else {
        x
    }
}

proof fn lemma_saturate_step(x: int, a: int, b: int, c: int)
    requires
        x >= 0,
    ensures
        saturate(x + min(min(saturate(a), saturate(b)), saturate(c))) == saturate(
            x + min(min(a, b), c),
        ),
{
}

fn min_u64(a: u64, b: u64) -> (r: u64)
    ensures
        r == min(a as int, b as int),
{
    if a <= b {
        a
    } else {
        b
    }
}

/// Dynamic time warping cost over a matrix of pairwise distances.
///
/// Row `i`, column `j` holds the distance between point `i` of the first
/// sequence and point `j` of the second. Sums saturate: a cost beyond
/// `u64::MAX` is reported as `u64::MAX`. An empty matrix stands for an empty
/// sequence and is refused.
pub fn dtw_walk(dist: &Vec<Vec<u64>>) -> (r: Result<u64, CurveError>)
    requires
        is_rectangular(matrix_view(dist)),
    ensures
        is_matrix(matrix_view(dist)) ==> r is Ok && r->Ok_0 == saturate(
            dtw_value(matrix_view(dist)),
        ),
        !is_matrix(matrix_view(dist)) ==> r == Err::<u64, CurveError>(CurveError::EmptySequence),
{
    let ghost d = matrix_view(dist);
    let n = dist.len();
    if n == 0 {
        return Err(CurveError::EmptySequence);
    }
    let m = dist[0].len();
    if m == 0 {
        return Err(CurveError::EmptySequence);
    }
    assert(forall|i: int| 0 <= i < n ==> #[trigger] d[i] == dist@[i]@);
    let mut prev: Vec<u64> = Vec::new();
    let mut j: usize = 0;
    while j < m
        invariant
            d == matrix_view(dist),
            is_rectangular(d),
            n == d.len(),
            m == n_cols(d),
            0 < m,
            j <= m,
            forall|i: int| 0 <= i < n ==> #[trigger] d[i] == dist@[i]@,
            prev@.len() == j,
            forall|k: int| 0 <= k < j ==> prev@[k] == saturate(dtw_cell(d, 0, k as nat)),
        decreases m - j,
    {
        let x = dist[0][j];
        let c = if j == 0 {
            x
        } else {
            x.saturating_add(prev[j - 1])
        };
        prev.push(c);
        j += 1;
    }
    let mut i: usize = 1;
    while i < n
        invariant
            d == matrix_view(dist),
            is_rectangular(d),
            n == d.len(),
            m == n_cols(d),
            0 < m,
            1 <= i <= n,
            forall|i: int| 0 <= i < n ==> #[trigger] d[i] == dist@[i]@,
            prev@.len() == m,
            forall|k: int|
                0 <= k < m ==> prev@[k] == saturate(dtw_cell(d, (i - 1) as nat, k as nat)),
        decreases n - i,
    {
        assert(d[i as int].len() == m);
        let mut cur: Vec<u64> = Vec::new();
        let mut j: usize = 0;
        while j < m
            invariant
                d == matrix_view(dist),
                is_rectangular(d),
                n == d.len(),
                m == n_cols(d),
                1 <= i < n,
                j <= m,
                d[i as int].len() == m,
                forall|i: int| 0 <= i < n ==> #[trigger] d[i] == dist@[i]@,
                prev@.len() == m,
                forall|k: int|
                    0 <= k < m ==> prev@[k] == saturate(dtw_cell(d, (i - 1) as nat, k as nat)),
                cur@.len() == j,
                forall|k: int| 0 <= k < j ==> cur@[k] == saturate(dtw_cell(d, i as nat, k as nat)),
            decreases m - j,
        {
            let x = dist[i][j];
            let c = if j == 0 {
                x.saturating_add(prev[0])
            } else {
                let best = min_u64(min_u64(prev[j], cur[j - 1]), prev[j - 1]);
                proof {
                    lemma_saturate_step(
                        x as int,
                        dtw_cell(d, (i - 1) as nat, j as nat),
                        dtw_cell(d, i as nat, (j - 1) as nat),
                        dtw_cell(d, (i - 1) as nat, (j - 1) as nat),
                    );
                }
                x.saturating_add(best)
            };
            cur.push(c);
            j += 1;
        }
        prev = cur;
        i += 1;
    }
    Ok(prev[m - 1])
}

/// The cumulative cost of a cell is at least the distance stored in it.
pub proof fn lemma_dtw_cell_at_least_entry(d: Seq<Seq<u64>>, i: nat, j: nat)
    ensures
        dtw_cell(d, i, j) >= d[i as int][j as int],
    decreases i + j,
{
    if i > 0 {
        lemma_dtw_cell_at_least_entry(d, (i - 1) as nat, j);
        lemma_dtw_cell_at_least_entry(d, (i - 1) as nat, 0);
    }
    if j > 0 {
        lemma_dtw_cell_at_least_entry(d, i, (j - 1) as nat);
        lemma_dtw_cell_at_least_entry(d, 0, (j - 1) as nat);
    }
    if i > 0 && j > 0 {
        lemma_dtw_cell_at_least_entry(d, (i - 1) as nat, (j - 1) as nat);
    }
}

/// Exchanging the two sequences transposes the distance matrix, and the
/// cumulative cost of a cell is that of the mirrored cell of the transpose.
pub proof fn lemma_dtw_cell_transpose(d: Seq<Seq<u64>>, i: nat, j: nat)
    requires
        is_matrix(d),
        i < n_rows(d),
        j < n_cols(d),
    ensures
        dtw_cell(d, i, j) == dtw_cell(transpose(d), j, i),
    decreases i + j,
{
    lemma_transpose_matrix(d);
    if i > 0 {
        lemma_dtw_cell_transpose(d, (i - 1) as nat, j);
    }
    if j > 0 {
        lemma_dtw_cell_transpose(d, i, (j - 1) as nat);
    }
    if i > 0 && j > 0 {
        lemma_dtw_cell_transpose(d, (i - 1) as nat, (j - 1) as nat);
    }
}

/// Symmetry: the warping cost does not depend on which sequence comes first.
/// Swapping the sequences transposes their distance matrix under any
/// symmetric metric, and the cost of the transpose is the same.
pub proof fn dtw_symmetric(d: Seq<Seq<u64>>)
    requires
        is_matrix(d),
    ensures
        is_matrix(transpose(d)),
        dtw_value(transpose(d)) == dtw_value(d),
{
    lemma_transpose_matrix(d);
    lemma_dtw_cell_transpose(d, (n_rows(d) - 1) as nat, (n_cols(d) - 1) as nat);
}

proof fn lemma_dtw_diagonal_zero(d: Seq<Seq<u64>>, i: nat)
    requires
        is_matrix(d),
        has_zero_diagonal(d),
        i < n_rows(d),
    ensures
        dtw_cell(d, i, i) == 0,
    decreases i,
{
    if i > 0 {
        lemma_dtw_diagonal_zero(d, (i - 1) as nat);
        lemma_dtw_cell_at_least_entry(d, (i - 1) as nat, i);
        lemma_dtw_cell_at_least_entry(d, i, (i - 1) as nat);
    }
}

/// Identity: a sequence costs nothing to warp onto itself. Its distance
/// matrix against itself is square with a zero diagonal, and the diagonal
/// alignment adds only zeros.
pub proof fn dtw_identity(d: Seq<Seq<u64>>)
    requires
        is_matrix(d),
        has_zero_diagonal(d),
    ensures
        dtw_value(d) == 0,
{
    lemma_dtw_diagonal_zero(d, (n_rows(d) - 1) as nat);
}

} // verus!
