use matrix::Matrix;

#[test]
fn sum_is_cellwise() {
    let a = Matrix::new(2, 2, &[1, -2, 3, -4]);
    let b = Matrix::new(2, 2, &[10, 20, 30, 40]);
    assert_eq!(&a + &b, Matrix::new(2, 2, &[11, 18, 33, 36]));
}

#[test]
fn difference_is_cellwise() {
    let a = Matrix::new(2, 2, &[1, -2, 3, -4]);
    let b = Matrix::new(2, 2, &[10, 20, 30, 40]);
    assert_eq!(&a - &b, Matrix::new(2, 2, &[-9, -22, -27, -44]));
}

#[test]
fn adding_and_subtracting_gives_the_first_matrix_back() {
    let a = Matrix::new(2, 3, &[i32::MIN, -1, 0, 1, 2, i32::MAX - 6]);
    let b = Matrix::new(2, 3, &[1, 2, 3, 4, 5, 6]);
    assert!(a.can_add(&b));
    let sum = &a + &b;
    assert!(sum.can_sub(&b));
    assert_eq!(&sum - &b, a);
}

#[test]
fn negation_is_cellwise() {
    let a = Matrix::new(1, 3, &[1, 0, -7]);
    assert_eq!(-&a, Matrix::new(1, 3, &[-1, 0, 7]));
    assert_eq!(-a, Matrix::new(1, 3, &[-1, 0, 7]));
}

#[test]
fn scalars_reach_every_cell() {
    let a = Matrix::new(2, 2, &[1, 2, 3, 4]);
    assert_eq!(&a + &10, Matrix::new(2, 2, &[11, 12, 13, 14]));
    assert_eq!(&a - &10, Matrix::new(2, 2, &[-9, -8, -7, -6]));
    assert_eq!(&a * &10, Matrix::new(2, 2, &[10, 20, 30, 40]));
    assert_eq!(&a + 10, Matrix::new(2, 2, &[11, 12, 13, 14]));
    assert_eq!(&a - 10, Matrix::new(2, 2, &[-9, -8, -7, -6]));
    assert_eq!(&a * 10, Matrix::new(2, 2, &[10, 20, 30, 40]));
}

#[test]
fn product_follows_rows_against_columns() {
    let x = Matrix::new(3, 3, &[1, 2, 3, 4, 5, 6, 7, 8, 9]);
    let y = Matrix::new(3, 3, &[0, 1, 2, 3, 4, 5, 6, 7, 8]);
    assert_eq!(&x * &y, Matrix::new(3, 3, &[24, 30, 36, 51, 66, 81, 78, 102, 126]));
}

#[test]
fn product_takes_its_shape_from_both_operands() {
    let a = Matrix::new(2, 3, &[1, 2, 3, 4, 5, 6]);
    let b = Matrix::new(3, 1, &[1, 0, -1]);
    let p = &a * &b;
    assert_eq!(p.shape(), (2, 1));
    assert_eq!(p, Matrix::new(2, 1, &[-2, -2]));
    let q = &b * &Matrix::new(1, 2, &[2, 3]);
    assert_eq!(q, Matrix::new(3, 2, &[2, 3, 0, 0, -2, -3]));
}

#[test]
fn product_with_the_unit_matrix_changes_nothing() {
    let a = Matrix::new(2, 2, &[5, 6, 7, 8]);
    let unit = Matrix::new(2, 2, &[1, 0, 0, 1]);
    assert_eq!(&a * &unit, a);
    assert_eq!(&unit * &a, a);
}

#[test]
fn product_without_cells_has_no_cells() {
    let none: [i32; 0] = [];
    let a = Matrix::new(0, 3, &none);
    let b = Matrix::new(3, 2, &[1, 2, 3, 4, 5, 6]);
    assert!(a.can_mul(&b));
    assert_eq!(&a * &b, Matrix::new(0, 2, &none));
    let c = Matrix::new(2, 0, &none);
    let d = Matrix::new(0, 0, &none);
    assert!(c.can_mul(&d));
    assert_eq!(&c * &d, Matrix::new(2, 0, &none));
}

#[test]
fn owned_and_borrowed_operands_agree() {
    let a = || Matrix::new(2, 2, &[1, 2, 3, 4]);
    let b = || Matrix::new(2, 2, &[5, 6, 7, 8]);
    let sum = &a() + &b();
    assert_eq!(a() + &b(), sum);
    assert_eq!(&a() + b(), sum);
    assert_eq!(a() + b(), sum);
    let difference = &a() - &b();
    assert_eq!(a() - &b(), difference);
    assert_eq!(&a() - b(), difference);
    assert_eq!(a() - b(), difference);
    let product = &a() * &b();
    assert_eq!(product, Matrix::new(2, 2, &[19, 22, 43, 50]));
    assert_eq!(a() * &b(), product);
    assert_eq!(&a() * b(), product);
    assert_eq!(a() * b(), product);
}

#[test]
fn owned_and_borrowed_scalars_agree() {
    let a = || Matrix::new(1, 2, &[3, 4]);
    assert_eq!(a() + &2, Matrix::new(1, 2, &[5, 6]));
    assert_eq!(a() + 2, Matrix::new(1, 2, &[5, 6]));
    assert_eq!(a() - &2, Matrix::new(1, 2, &[1, 2]));
    assert_eq!(a() - 2, Matrix::new(1, 2, &[1, 2]));
    assert_eq!(a() * &2, Matrix::new(1, 2, &[6, 8]));
    assert_eq!(a() * 2, Matrix::new(1, 2, &[6, 8]));
}

#[test]
fn every_element_kind_computes() {
    assert_eq!(&Matrix::new(1, 1, &[100i8]) + &Matrix::new(1, 1, &[27i8]), Matrix::new(1, 1, &[127i8]));
    assert_eq!(&Matrix::new(1, 1, &[-100i16]) - &Matrix::new(1, 1, &[27i16]), Matrix::new(1, 1, &[-127i16]));
    assert_eq!(&Matrix::new(1, 1, &[3i64]) * &Matrix::new(1, 1, &[-4i64]), Matrix::new(1, 1, &[-12i64]));
    assert_eq!(&Matrix::new(1, 1, &[3isize]) * &-4, Matrix::new(1, 1, &[-12isize]));
    assert_eq!(&Matrix::new(1, 1, &[200u8]) + &Matrix::new(1, 1, &[55u8]), Matrix::new(1, 1, &[255u8]));
    assert_eq!(&Matrix::new(1, 1, &[200u16]) - &Matrix::new(1, 1, &[200u16]), Matrix::new(1, 1, &[0u16]));
    assert_eq!(&Matrix::new(1, 1, &[65536u32]) * &Matrix::new(1, 1, &[65535u32]), Matrix::new(1, 1, &[4294901760u32]));
    assert_eq!(
        &Matrix::new(1, 1, &[4294967296u64]) * &Matrix::new(1, 1, &[4294967295u64]),
        Matrix::new(1, 1, &[18446744069414584320u64])
    );
    assert_eq!(&Matrix::new(1, 1, &[7usize]) + &8, Matrix::new(1, 1, &[15usize]));
    assert_eq!(-&Matrix::new(1, 1, &[0u32]), Matrix::new(1, 1, &[0u32]));
    assert_eq!(-&Matrix::new(1, 1, &[i64::MAX]), Matrix::new(1, 1, &[i64::MIN + 1]));
}

#[test]
fn can_add_asks_for_equal_shapes() {
    let a = Matrix::new(2, 3, &[1, 2, 3, 4, 5, 6]);
    assert!(a.can_add(&Matrix::new(2, 3, &[0, 0, 0, 0, 0, 0])));
    assert!(!a.can_add(&Matrix::new(3, 2, &[0, 0, 0, 0, 0, 0])));
    assert!(!a.can_add(&Matrix::new(1, 6, &[0, 0, 0, 0, 0, 0])));
    assert!(a.can_sub(&Matrix::new(2, 3, &[0, 0, 0, 0, 0, 0])));
    assert!(!a.can_sub(&Matrix::new(3, 2, &[0, 0, 0, 0, 0, 0])));
}

#[test]
fn can_add_asks_for_cells_that_fit() {
    let a = Matrix::new(1, 2, &[100i8, -100]);
    assert!(a.can_add(&Matrix::new(1, 2, &[27i8, -28])));
    assert!(!a.can_add(&Matrix::new(1, 2, &[28i8, 0])));
    assert!(!a.can_add(&Matrix::new(1, 2, &[0i8, -29])));
    assert!(a.can_sub(&Matrix::new(1, 2, &[-27i8, 28])));
    assert!(!a.can_sub(&Matrix::new(1, 2, &[-28i8, 0])));
    assert!(!a.can_sub(&Matrix::new(1, 2, &[0i8, 29])));
    let u = Matrix::new(1, 1, &[5u64]);
    assert!(u.can_sub(&Matrix::new(1, 1, &[5u64])));
    assert!(!u.can_sub(&Matrix::new(1, 1, &[6u64])));
    assert!(!u.can_add(&Matrix::new(1, 1, &[u64::MAX - 4])));
    assert!(u.can_add(&Matrix::new(1, 1, &[u64::MAX - 5])));
}

#[test]
fn can_neg_asks_for_cells_that_fit() {
    assert!(Matrix::new(1, 2, &[i8::MAX, -127]).can_neg());
    assert!(!Matrix::new(1, 2, &[0, i8::MIN]).can_neg());
    assert!(Matrix::new(1, 2, &[0u8, 0]).can_neg());
    assert!(!Matrix::new(1, 2, &[0u8, 1]).can_neg());
}

#[test]
fn can_mul_asks_for_a_shared_dimension() {
    let a = Matrix::new(2, 3, &[1, 2, 3, 4, 5, 6]);
    assert!(a.can_mul(&Matrix::new(3, 2, &[1, 2, 3, 4, 5, 6])));
    assert!(!a.can_mul(&Matrix::new(2, 3, &[1, 2, 3, 4, 5, 6])));
    assert!(!a.can_mul(&Matrix::new(2, 2, &[1, 2, 3, 4])));
}

#[test]
fn can_mul_refuses_a_shared_dimension_of_zero_where_cells_are_due() {
    let none: [i32; 0] = [];
    let a = Matrix::new(2, 0, &none);
    let b = Matrix::new(0, 2, &none);
    assert!(!a.can_mul(&b));
    assert!(b.can_mul(&a));
    assert_eq!(&b * &a, Matrix::new(0, 0, &none));
}

#[test]
fn can_mul_asks_for_terms_and_sums_that_fit() {
    let a = Matrix::new(1, 2, &[100i8, 1]);
    assert!(a.can_mul(&Matrix::new(2, 1, &[1i8, 27])));
    assert!(!a.can_mul(&Matrix::new(2, 1, &[1i8, 28])));
    assert!(!a.can_mul(&Matrix::new(2, 1, &[2i8, -100])));
    assert!(a.can_mul(&Matrix::new(2, 1, &[1i8, -100])));
    let big = Matrix::new(1, 1, &[u64::MAX]);
    assert!(!big.can_mul(&Matrix::new(1, 1, &[u64::MAX])));
    assert!(big.can_mul(&Matrix::new(1, 1, &[1u64])));
    let partial = Matrix::new(1, 3, &[100i8, 100, -100]);
    assert!(!partial.can_mul(&Matrix::new(3, 1, &[1i8, 1, 1])));
    let ordered = Matrix::new(1, 3, &[100i8, -100, 100]);
    assert!(ordered.can_mul(&Matrix::new(3, 1, &[1i8, 1, 1])));
    assert_eq!(&ordered * &Matrix::new(3, 1, &[1i8, 1, 1]), Matrix::new(1, 1, &[100i8]));
}

#[test]
fn scalar_checks_ask_for_cells_that_fit() {
    let a = Matrix::new(1, 2, &[100i8, -100]);
    assert!(a.can_add_scalar(27));
    assert!(!a.can_add_scalar(28));
    assert!(a.can_sub_scalar(28));
    assert!(!a.can_sub_scalar(29));
    assert!(a.can_mul_scalar(1));
    assert!(a.can_mul_scalar(-1));
    assert!(!a.can_mul_scalar(2));
    let big = Matrix::new(1, 1, &[u64::MAX]);
    assert!(!big.can_mul_scalar(u64::MAX));
    assert!(big.can_mul_scalar(1));
    assert!(big.can_mul_scalar(0));
}
