use vstd::prelude::*;

verus! {

/// Which point-to-point distance is used to fill a distance matrix.
#[derive(Clone, Copy, Debug, PartialEq, Eq, Structural)]
pub enum DistMetric {
    /// L2 norm of the coordinate-wise difference.
    Euclidean,
    /// L1 norm: the sum of the absolute coordinate differences.
    Manhattan,
}

/// Number of rows of a matrix stored row by row.
pub open spec fn n_rows(d: Seq<Seq<u64>>) -> nat {
    d.len()
}

/// Number of columns of a matrix stored row by row (zero for a matrix without rows).
pub open spec fn n_cols(d: Seq<Seq<u64>>) -> nat {
    if d.len() == 0 {
        0
    } else {
        d[0].len()
    }
}

/// Every row has as many entries as the first one.
pub open spec fn is_rectangular(d: Seq<Seq<u64>>) -> bool {
    forall|i: int| 0 <= i < d.len() ==> (#[trigger] d[i]).len() == n_cols(d)
}

/// A rectangular matrix with at least one row and one column.
pub open spec fn is_matrix(d: Seq<Seq<u64>>) -> bool {
    &&& is_rectangular(d)
    &&& n_rows(d) > 0
    &&& n_cols(d) > 0
}

/// The matrix as a sequence of row sequences.
pub open spec fn matrix_view(d: &Vec<Vec<u64>>) -> Seq<Seq<u64>> {
    d@.map_values(|r: Vec<u64>| r@)
}

/// The matrix with rows and columns exchanged: entry (j, i) of the result is entry (i, j) of `d`.
pub open spec fn transpose(d: Seq<Seq<u64>>) -> Seq<Seq<u64>> {
    Seq::new(n_cols(d), |j: int| Seq::new(n_rows(d), |i: int| d[i][j]))
}

/// Whether a square matrix is zero on its diagonal, as the distance matrix of a
/// sequence against itself is.
pub open spec fn has_zero_diagonal(d: Seq<Seq<u64>>) -> bool {
    &&& n_rows(d) == n_cols(d)
    &&& forall|i: int| 0 <= i < d.len() ==> #[trigger] d[i][i] == 0
}

/// The transpose of a matrix is a matrix of the exchanged shape, holding the
/// same entries at mirrored places.
pub proof fn lemma_transpose_matrix(d: Seq<Seq<u64>>)
    requires
        is_matrix(d),
    ensures
        is_matrix(transpose(d)),
        n_rows(transpose(d)) == n_cols(d),
        n_cols(transpose(d)) == n_rows(d),
        forall|i: int, j: int|
            0 <= i < n_rows(d) && 0 <= j < n_cols(d) ==> #[trigger] transpose(d)[j][i] == d[i][j],
{
}

/// Fills the `n1` by `n2` matrix whose entry (i, j) is `dist(i, j)`: the
/// distance between point `i` of the first sequence and point `j` of the second.
pub fn calc_dist_matrix<T, F: Fn(usize, usize) -> T>(n1: usize, n2: usize, dist: F) -> (r: Vec<
    Vec<T>,
>)
    requires
        forall|i: usize, j: usize| i < n1 && j < n2 ==> dist.requires((i, j)),
    ensures
        r@.len() == n1,
        forall|i: int| 0 <= i < n1 ==> (#[trigger] r@[i])@.len() == n2,
        forall|i: int, j: int|
            0 <= i < n1 && 0 <= j < n2 ==> dist.ensures((i as usize, j as usize), #[trigger] r@[i]@[j]),
{
    let mut rows: Vec<Vec<T>> = Vec::new();
    let mut i: usize = 0;
    while i < n1
        invariant
            i <= n1,
            forall|i: usize, j: usize| i < n1 && j < n2 ==> dist.requires((i, j)),
            rows@.len() == i,
            forall|k: int| 0 <= k < i ==> (#[trigger] rows@[k])@.len() == n2,
            forall|k: int, j: int|
                0 <= k < i && 0 <= j < n2 ==> dist.ensures((k as usize, j as usize), #[trigger] rows@[k]@[j]),
        decreases n1 - i,
    {
        let mut row: Vec<T> = Vec::new();
        let mut j: usize = 0;
        while j < n2
            invariant
                i < n1,
                j <= n2,
                forall|i: usize, j: usize| i < n1 && j < n2 ==> dist.requires((i, j)),
                row@.len() == j,
                forall|l: int| 0 <= l < j ==> dist.ensures((i, l as usize), #[trigger] row@[l]),
            decreases n2 - j,
        {
            let x = dist(i, j);
            row.push(x);
            j += 1;
        }
        rows.push(row);
        i += 1;
    }
    rows
}

} // verus!
