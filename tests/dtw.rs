use curve_similarities::{calc_dist_matrix, check_shapes, dtw_walk, CurveError};

fn manhattan(p: &[i64], q: &[i64]) -> u64 {
    p.iter().zip(q.iter()).map(|(a, b)| (a - b).unsigned_abs()).sum()
}

fn dtw_of(a: &[Vec<i64>], b: &[Vec<i64>]) -> Result<u64, CurveError> {
    check_shapes(a.len(), a[0].len(), b.len(), b[0].len())?;
    let d = calc_dist_matrix(a.len(), b.len(), |i: usize, j: usize| manhattan(&a[i], &b[j]));
    dtw_walk(&d)
}

#[test]
fn dtw_one_dimensional() {
    // In one dimension the Euclidean and Manhattan distances agree.
    let r = dtw_of(&[vec![1], vec![1], vec![3]], &[vec![2], vec![4]]);
    assert_eq!(r, Ok(3));
}

#[test]
fn dtw_manhattan_plane() {
    let r = dtw_of(&[vec![1, 2], vec![1, 4], vec![3, 1]], &[vec![2, 5], vec![4, 2]]);
    assert_eq!(r, Ok(8));
}

#[test]
fn test_dtw_wrong_dims() {
    let r = check_shapes(3, 1, 2, 2);
    assert!(r.is_err());
    assert_eq!(r, Err(CurveError::DimensionMismatch { dim1: 1, dim2: 2 }));
}

#[test]
fn dtw_walk_integer_matrix() {
    let d: Vec<Vec<u64>> = vec![vec![1, 3], vec![1, 3], vec![1, 1]];
    assert_eq!(dtw_walk(&d), Ok(3));
    let row: Vec<Vec<u64>> = vec![vec![4, 2, 7, 1]];
    assert_eq!(dtw_walk(&row), Ok(14));
    let column: Vec<Vec<u64>> = vec![vec![4], vec![2], vec![7]];
    assert_eq!(dtw_walk(&column), Ok(13));
}

#[test]
fn dtw_walk_saturates() {
    let d: Vec<Vec<u64>> = vec![vec![u64::MAX - 1, 5], vec![1, 1]];
    assert_eq!(dtw_walk(&d), Ok(u64::MAX));
    let fits: Vec<Vec<u64>> = vec![vec![u64::MAX - 2, 1]];
    assert_eq!(dtw_walk(&fits), Ok(u64::MAX - 1));
}

#[test]
fn dtw_walk_empty() {
    let none: Vec<Vec<u64>> = vec![];
    assert_eq!(dtw_walk(&none), Err(CurveError::EmptySequence));
}
