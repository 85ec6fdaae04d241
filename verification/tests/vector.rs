use concurrency::vector::{dot_product, Vector, VectorError};

#[test]
fn dot_product_is_sum_of_pairwise_products() {
    let a = Vector::new(vec![1, 2, 3]);
    let b = Vector::new(vec![4, 5, 6]);
    assert_eq!(dot_product(a, b), Ok(32));
}

#[test]
fn dot_product_of_empty_vectors_is_default() {
    let a: Vector<i64> = Vector::new(vec![]);
    let b: Vector<i64> = Vector::new(vec![]);
    assert_eq!(dot_product(a, b), Ok(0));
}

#[test]
fn dot_product_with_negative_and_unsigned_scalars() {
    assert_eq!(dot_product(Vector::new(vec![-1, 2, -3]), Vector::new(vec![4, -5, 6])), Ok(-32));
    assert_eq!(dot_product(Vector::new(vec![2u8, 3]), Vector::new(vec![10u8, 20])), Ok(80u8));
}

#[test]
fn dot_product_rejects_unequal_lengths() {
    let a = Vector::new(vec![1, 2, 3]);
    let b = Vector::new(vec![4, 5]);
    assert_eq!(dot_product(a, b), Err(VectorError::LengthMismatch));
    let c = Vector::new(vec![1]);
    let d: Vector<i32> = Vector::new(vec![]);
    assert_eq!(dot_product(d, c), Err(VectorError::LengthMismatch));
}

#[test]
fn vector_keeps_its_elements() {
    let v = Vector::new(vec![7, 8, 9]);
    assert_eq!(v.len(), 3);
    assert_eq!((v.get(0), v.get(1), v.get(2)), (7, 8, 9));
}
