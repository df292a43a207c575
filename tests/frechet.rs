use curve_similarities::{calc_dist_matrix, check_shapes, frechet_walk, CurveError, DistMetric};
use ndarray::Array2;
use ndarray_stats::DeviationExt;
use num::{Signed, ToPrimitive};

fn curve<T>(rows: usize, cols: usize, values: Vec<T>) -> Array2<T> {
    Array2::from_shape_vec((rows, cols), values).unwrap()
}

fn frechet_of<T>(a: &Array2<T>, b: &Array2<T>, metric: DistMetric) -> Result<f64, CurveError>
where
    T: Clone + Signed + std::ops::AddAssign + ToPrimitive + Into<f64>,
{
    check_shapes(a.nrows(), a.ncols(), b.nrows(), b.ncols())?;
    let keys = calc_dist_matrix(a.nrows(), b.nrows(), |i: usize, j: usize| {
        let d: f64 = match metric {
            DistMetric::Euclidean => a.row(i).l2_dist(&b.row(j)).unwrap(),
            DistMetric::Manhattan => a.row(i).l1_dist(&b.row(j)).unwrap().into(),
        };
        d.to_bits()
    });
    frechet_walk(&keys).map(f64::from_bits)
}

#[test]
fn test_frechet_euclidean() {
    let fr = frechet_of(&curve(3, 1, vec![1.0, 1.0, 3.0]), &curve(2, 1, vec![2.0, 4.0]), DistMetric::Euclidean);
    assert_eq!(fr, Ok(1.0));

    let fr1 = frechet_of(&curve(3, 1, vec![1.0, 3.0, 4.0]), &curve(2, 1, vec![1.0, 7.3]), DistMetric::Euclidean);
    assert_eq!(fr1, Ok(3.3));

    let fr2 = frechet_of(
        &curve(3, 2, vec![1.0, 2.0, 1.0, 4.0, 3.0, 1.0]),
        &curve(2, 2, vec![2.0, 5.0, 4.0, 2.0]),
        DistMetric::Euclidean,
    );
    assert_eq!(fr2, Ok(3.1622776601683795));
}

#[test]
fn test_frechet_euclidean_f32() {
    let fr = frechet_of(&curve(3, 1, vec![1.0_f32, 1.0, 3.0]), &curve(2, 1, vec![2.0, 4.0]), DistMetric::Euclidean);
    assert_eq!(fr, Ok(1.0));

    let fr1 = frechet_of(&curve(3, 1, vec![1.0_f32, 3.0, 4.0]), &curve(2, 1, vec![1.0, 7.3]), DistMetric::Euclidean);
    assert_eq!(fr1, Ok(3.3000001965147017));

    let fr2 = frechet_of(
        &curve(3, 2, vec![1.0_f32, 2.0, 1.0, 4.0, 3.0, 1.0]),
        &curve(2, 2, vec![2.0, 5.0, 4.0, 2.0]),
        DistMetric::Euclidean,
    );
    assert_eq!(fr2, Ok(3.1622776601683795));
}

#[test]
fn test_frechet_manhattan() {
    let fr = frechet_of(&curve(3, 1, vec![1.0, 1.0, 3.0]), &curve(2, 1, vec![2.0, 4.0]), DistMetric::Manhattan);
    assert_eq!(fr, Ok(1.0));

    let fr1 = frechet_of(&curve(3, 1, vec![1.0, 3.0, 4.0]), &curve(2, 1, vec![1.0, 7.3]), DistMetric::Manhattan);
    assert_eq!(fr1, Ok(3.3));

    let fr2 = frechet_of(
        &curve(3, 2, vec![1.0, 2.0, 1.0, 4.0, 3.0, 1.0]),
        &curve(2, 2, vec![2.0, 5.0, 4.0, 2.0]),
        DistMetric::Manhattan,
    );
    assert_eq!(fr2, Ok(4.0));
}

#[test]
fn frechet_wrong_dims() {
    let fr = frechet_of(
        &curve(3, 1, vec![1.0, 3.0, 4.0]),
        &curve(2, 2, vec![1.0, 2.0, 7.3, 3.7]),
        DistMetric::Euclidean,
    );
    assert_eq!(fr, Err(CurveError::DimensionMismatch { dim1: 1, dim2: 2 }));
}

#[test]
fn frechet_single_points() {
    let fr = frechet_of(&curve(1, 2, vec![0.0, 0.0]), &curve(1, 2, vec![3.0, 4.0]), DistMetric::Euclidean);
    assert_eq!(fr, Ok(5.0));
}

#[test]
fn frechet_walk_integer_matrix() {
    let d: Vec<Vec<u64>> = vec![vec![1, 3], vec![1, 3], vec![1, 1]];
    assert_eq!(frechet_walk(&d), Ok(1));
    let d2: Vec<Vec<u64>> = vec![vec![0, 9, 9], vec![9, 2, 9], vec![9, 9, 5]];
    assert_eq!(frechet_walk(&d2), Ok(5));
    let row: Vec<Vec<u64>> = vec![vec![4, 2, 7, 1]];
    assert_eq!(frechet_walk(&row), Ok(7));
}

#[test]
fn frechet_walk_empty() {
    let none: Vec<Vec<u64>> = vec![];
    assert_eq!(frechet_walk(&none), Err(CurveError::EmptySequence));
    let no_columns: Vec<Vec<u64>> = vec![vec![], vec![]];
    assert_eq!(frechet_walk(&no_columns), Err(CurveError::EmptySequence));
}
