use open_parallel::matrix::dependency_matrix;
use open_parallel::{Matrix, TaskId};

#[test]
fn test_matrix_identity() {
    let m = Matrix::identity(3, 0.0, 1.0);
    assert_eq!(m.data[0][0], 1.0);
    assert_eq!(m.data[1][1], 1.0);
    assert_eq!(m.data[2][2], 1.0);
    assert_eq!(m.data[0][1], 0.0);
}

#[test]
fn test_matrix_transpose() {
    let mut m = Matrix::zeros(2, 0.0);
    m.data[0][1] = 5.0;
    let t = m.transpose();
    assert_eq!(t.data[1][0], 5.0);
}

#[test]
fn test_dependency_matrix_construction() {
    // task 0 ("a", weight 2.0) depends on task 1; task 1 ("b", weight 3.0) on nothing
    let deps = vec![vec![1usize], vec![]];
    let weights = vec![2.0, 3.0];
    let mat = dependency_matrix(&deps, &weights, 0.0);
    assert_eq!(mat.size, 2);
    assert_eq!(mat.data[0][1], 3.0); // task 0 depends on task 1 (weight 3.0)
    assert_eq!(mat.data[1][0], 0.0); // task 1 has no dependency on task 0
}

#[test]
fn zeros_has_the_given_shape_and_fill() {
    let m = Matrix::zeros(3, 7i64);
    assert_eq!(m.size, 3);
    assert_eq!(m.data.len(), 3);
    assert!(m.data.iter().all(|row| row.len() == 3 && row.iter().all(|&x| x == 7)));
    let empty: Matrix<i64> = Matrix::zeros(0, 0);
    assert!(empty.data.is_empty());
}

#[test]
fn transpose_twice_is_identity_and_swaps_entries() {
    let mut m = Matrix::zeros(3, 0i32);
    let mut k = 0;
    for i in 0..3 {
        for j in 0..3 {
            m.data[i][j] = k;
            k += 1;
        }
    }
    let t = m.transpose();
    for i in 0..3 {
        for j in 0..3 {
            assert_eq!(t.data[i][j], m.data[j][i]);
        }
    }
    assert_eq!(t.transpose().data, m.data);
}

#[test]
fn dependency_matrix_ignores_out_of_range_and_repeats() {
    // chain 0 <- 1 <- 2, plus a dependency on a task that does not exist
    let deps = vec![vec![], vec![0, 0], vec![1, 9]];
    let weights = vec![1.5, 2.5, 4.0];
    let mat = dependency_matrix(&deps, &weights, 0.0);
    assert_eq!(mat.size, 3);
    assert_eq!(mat.data[1][0], 1.5);
    assert_eq!(mat.data[2][1], 2.5);
    assert_eq!(mat.data[0], vec![0.0, 0.0, 0.0]);
    assert_eq!(mat.data[2][2], 0.0);
}

#[test]
fn task_ids_compare_by_value() {
    assert_eq!(TaskId(3), TaskId(3));
    assert_ne!(TaskId(3), TaskId(4));
}

#[test]
fn transpose_reads_only_the_leading_block() {
    let mut m = Matrix::zeros(3, 0i32);
    m.data[0][1] = 5;
    m.data[2][0] = 7;
    // an extra row and extra entries beyond `size` are ignored
    m.data.push(vec![9, 9, 9, 9]);
    m.data[0].push(8);
    m.size = 3;
    let t = m.transpose();
    assert_eq!(t.size, 3);
    assert_eq!(t.data.len(), 3);
    assert_eq!(t.data[1][0], 5);
    assert_eq!(t.data[0][2], 7);
    assert!(t.data.iter().all(|row| row.len() == 3));
}
