use concurrency::matrix::{assemble, multiply, task, Matrix, MatrixError, MsgInput, MsgOutput};
use concurrency::vector::{Vector, VectorError};

fn sample_left() -> Matrix<i32> {
    Matrix::new(2, 3, vec![1, 2, 3, 4, 5, 6])
}

fn sample_right() -> Matrix<i32> {
    Matrix::new(3, 2, vec![1, 2, 3, 4, 5, 6])
}

#[test]
fn test_matrix_multiply() {
    let a = Matrix::new(2, 3, vec![1, 2, 3, 4, 5, 6]);
    let b = Matrix::new(3, 2, vec![1, 2, 3, 4, 5, 6]);
    let c = multiply(&a, &b).unwrap();
    assert_eq!(c.render_debug(), "Matrix[2x2]: {22 28, 49 64}");
}

#[test]
fn test_matrix_display() {
    let a = Matrix::new(2, 3, vec![1, 2, 3, 4, 5, 6]);
    assert_eq!(a.render(), "{1 2 3, 4 5 6}");
}

#[test]
fn test_matrix_multiply_error() {
    let a = Matrix::new(2, 3, vec![1, 2, 3, 4, 5, 6]);
    let b = Matrix::new(2, 3, vec![1, 2, 3, 4, 5, 6]);
    let c = multiply(&a, &b);
    assert!(c.is_err());
}

#[test]
#[should_panic]
fn test_matrix_multiply_error_panic() {
    let a = Matrix::new(2, 3, vec![1, 2, 3, 4, 5, 6]);
    let b = Matrix::new(2, 3, vec![1, 2, 3, 4, 5, 6]);
    let _c = a * b;
}

#[test]
fn new_keeps_shape_and_buffer() {
    let m = Matrix::new(2, 3, vec![1, 2, 3, 4, 5, 6]);
    assert_eq!(m.row, 2);
    assert_eq!(m.col, 3);
    assert_eq!(m.data, vec![1, 2, 3, 4, 5, 6]);
}

#[test]
fn display_of_three_by_two() {
    let a = Matrix::new(3, 2, vec![1, 2, 3, 4, 5, 6]);
    assert_eq!(a.render(), "{1 2, 3 4, 5 6}");
}

#[test]
fn display_of_single_cell_and_single_row() {
    assert_eq!(Matrix::new(1, 1, vec![7]).render(), "{7}");
    assert_eq!(Matrix::new(1, 3, vec![7, 8, 9]).render(), "{7 8 9}");
    assert_eq!(Matrix::new(3, 1, vec![7, 8, 9]).render(), "{7, 8, 9}");
}

#[test]
fn display_without_rows_or_columns() {
    assert_eq!(Matrix::<i32>::new(0, 0, vec![]).render(), "{}");
    assert_eq!(Matrix::<i32>::new(0, 3, vec![]).render(), "{}");
    assert_eq!(Matrix::<i32>::new(2, 0, vec![]).render(), "{, }");
}

#[test]
fn display_goes_by_the_elements_own_display() {
    assert_eq!(Matrix::new(1, 2, vec!["a", "b"]).render(), "{a b}");
    assert_eq!(Matrix::new(2, 2, vec![-1, 20, 300, -4000]).render(), "{-1 20, 300 -4000}");
    assert_eq!(Matrix::new(2, 1, vec![true, false]).render(), "{true, false}");
}

#[test]
fn well_formed_compares_buffer_and_shape() {
    assert!(Matrix::new(2, 3, vec![1, 2, 3, 4, 5, 6]).well_formed());
    assert!(Matrix::<i32>::new(0, 5, vec![]).well_formed());
    assert!(!Matrix::new(2, 3, vec![1, 2, 3, 4, 5]).well_formed());
    assert!(!Matrix::new(2, 3, vec![1, 2, 3, 4, 5, 6, 7]).well_formed());
    assert!(!Matrix::new(usize::MAX, 2, vec![1]).well_formed());
}

#[test]
fn debug_form_has_shape_in_front() {
    let a = Matrix::new(2, 3, vec![1, 2, 3, 4, 5, 6]);
    assert_eq!(a.render_debug(), "Matrix[2x3]: {1 2 3, 4 5 6}");
    assert_eq!(Matrix::<i32>::new(0, 0, vec![]).render_debug(), "Matrix[0x0]: {}");
}

#[test]
fn product_has_rows_of_left_and_columns_of_right() {
    let c = multiply(&sample_left(), &sample_right()).unwrap();
    assert_eq!((c.row, c.col), (2, 2));
    assert_eq!(c.data, vec![22, 28, 49, 64]);
    let d = multiply(&sample_right(), &sample_left()).unwrap();
    assert_eq!((d.row, d.col), (3, 3));
    assert_eq!(d.data, vec![9, 12, 15, 19, 26, 33, 29, 40, 51]);
}

#[test]
fn product_of_one_by_n_and_n_by_one() {
    let a = Matrix::new(1, 4, vec![1i64, 2, 3, 4]);
    let b = Matrix::new(4, 1, vec![5i64, 6, 7, 8]);
    let c = multiply(&a, &b).unwrap();
    assert_eq!((c.row, c.col), (1, 1));
    assert_eq!(c.data, vec![70]);
    let d = multiply(&b, &a).unwrap();
    assert_eq!((d.row, d.col), (4, 4));
    assert_eq!(d.data, vec![5, 10, 15, 20, 6, 12, 18, 24, 7, 14, 21, 28, 8, 16, 24, 32]);
}

#[test]
fn product_with_negative_entries() {
    let a = Matrix::new(2, 2, vec![1, -2, -3, 4]);
    let b = Matrix::new(2, 2, vec![-5, 6, 7, -8]);
    let c = multiply(&a, &b).unwrap();
    assert_eq!(c.data, vec![-19, 22, 43, -50]);
}

#[test]
fn product_over_an_empty_inner_dimension_is_all_default() {
    let a = Matrix::<i32>::new(2, 0, vec![]);
    let b = Matrix::<i32>::new(0, 3, vec![]);
    let c = multiply(&a, &b).unwrap();
    assert_eq!((c.row, c.col), (2, 3));
    assert_eq!(c.data, vec![0; 6]);
}

#[test]
fn product_without_cells() {
    let a = Matrix::<i32>::new(0, 2, vec![]);
    let b = Matrix::new(2, 2, vec![1, 2, 3, 4]);
    let c = multiply(&a, &b).unwrap();
    assert_eq!((c.row, c.col), (0, 2));
    assert!(c.data.is_empty());
}

#[test]
fn mismatch_is_reported_as_dimension_mismatch() {
    let a = sample_left();
    let b = sample_left();
    match multiply(&a, &b) {
        Err(e) => assert_eq!(e, MatrixError::DimensionMismatch),
        Ok(_) => panic!("a 2x3 and a 2x3 matrix have no product"),
    }
}

#[test]
fn mismatch_is_reported_whatever_the_buffers_hold() {
    let a = Matrix::new(2, 3, vec![1]);
    let b = Matrix::new(4, 1, vec![1, 2, 3, 4, 5, 6, 7, 8, 9]);
    match multiply(&a, &b) {
        Err(e) => assert_eq!(e, MatrixError::DimensionMismatch),
        Ok(_) => panic!("a 2x3 and a 4x1 matrix have no product"),
    }
}

#[test]
fn repeated_products_are_identical() {
    let a = sample_left();
    let b = sample_right();
    let first = multiply(&a, &b).unwrap();
    for _ in 0..10 {
        let again = multiply(&a, &b).unwrap();
        assert_eq!((again.row, again.col), (first.row, first.col));
        assert_eq!(again.data, first.data);
    }
}

#[test]
fn operator_gives_the_product() {
    let c = sample_left() * sample_right();
    assert_eq!((c.row, c.col), (2, 2));
    assert_eq!(c.data, vec![22, 28, 49, 64]);
}

#[test]
fn larger_product_matches_the_sums() {
    let n = 12usize;
    let a = Matrix::new(n, n, (0..(n * n) as i64).collect::<Vec<_>>());
    let b = Matrix::new(n, n, (0..(n * n) as i64).map(|x| 2 * x - 7).collect::<Vec<_>>());
    let c = multiply(&a, &b).unwrap();
    for i in 0..n {
        for j in 0..n {
            let mut sum = 0i64;
            for k in 0..n {
                sum += a.data[i * n + k] * b.data[k * n + j];
            }
            assert_eq!(c.data[i * n + j], sum);
        }
    }
}

#[test]
fn rows_are_contiguous_and_columns_strided() {
    let m = sample_left();
    let r = m.row_vector(1);
    assert_eq!(r.len(), 3);
    assert_eq!((r.get(0), r.get(1), r.get(2)), (4, 5, 6));
    let c = m.col_vector(2);
    assert_eq!(c.len(), 2);
    assert_eq!((c.get(0), c.get(1)), (3, 6));
}

#[test]
fn task_takes_row_and_column_of_its_cell() {
    let a = sample_left();
    let b = sample_right();
    let input = task(&a, &b, 3);
    assert_eq!(input.idx, 3);
    assert_eq!((input.row.get(0), input.row.get(1), input.row.get(2)), (4, 5, 6));
    assert_eq!((input.col.get(0), input.col.get(1), input.col.get(2)), (2, 4, 6));
    let first = task(&a, &b, 0);
    assert_eq!((first.row.get(0), first.col.get(2)), (1, 5));
}

#[test]
fn task_result_is_tagged_with_its_index() {
    let input = MsgInput::new(5, Vector::new(vec![1, 2, 3]), Vector::new(vec![4, 5, 6]));
    let output = input.compute().unwrap();
    assert_eq!(output.idx, 5);
    assert_eq!(output.value, 32);
}

#[test]
fn task_with_unequal_lengths_fails() {
    let input = MsgInput::new(0, Vector::new(vec![1, 2, 3]), Vector::new(vec![4, 5]));
    match input.compute() {
        Err(e) => assert_eq!(e, VectorError::LengthMismatch),
        Ok(_) => panic!("vectors of lengths 3 and 2 have no inner product"),
    }
}

#[test]
fn place_writes_the_tagged_cell_only() {
    let mut data = vec![0, 0, 0, 0];
    MsgOutput { idx: 2, value: 9 }.place(&mut data);
    assert_eq!(data, vec![0, 0, 9, 0]);
}

#[test]
fn assemble_goes_by_tags_not_by_order() {
    let outputs = vec![
        MsgOutput { idx: 3, value: 64 },
        MsgOutput { idx: 0, value: 22 },
        MsgOutput { idx: 2, value: 49 },
        MsgOutput { idx: 1, value: 28 },
    ];
    let m = assemble(2, 2, &outputs);
    assert_eq!((m.row, m.col), (2, 2));
    assert_eq!(m.data, vec![22, 28, 49, 64]);
}

#[test]
fn assemble_lets_the_last_result_for_a_cell_stand_and_leaves_defaults() {
    let outputs = vec![MsgOutput { idx: 1, value: 5 }, MsgOutput { idx: 1, value: 8 }];
    let m = assemble(1, 3, &outputs);
    assert_eq!(m.data, vec![0, 8, 0]);
}
