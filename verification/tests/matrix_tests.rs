use neural_rust::error::{Error, Shape};
use neural_rust::matrix::Matrix;

fn from_rows(rows: &[&[i64]]) -> Matrix<i64> {
    let height = rows.len();
    let width = if height == 0 { 0 } else { rows[0].len() };
    let mut m = Matrix::new(width, height);
    for (y, row) in rows.iter().enumerate() {
        assert_eq!(row.len(), width);
        for (x, v) in row.iter().enumerate() {
            m.set(x, y, *v);
        }
    }
    m
}

fn shape(width: usize, height: usize) -> Shape {
    Shape { width, height }
}

#[test]
fn matrix_dot_test() {
    let mut mat1 = Matrix::new(2, 2);
    *mat1.get_mut(0, 0) = 1;
    *mat1.get_mut(1, 0) = 2;
    *mat1.get_mut(0, 1) = 3;
    *mat1.get_mut(1, 1) = 4;

    let mut mat2 = Matrix::new(2, 2);
    *mat2.get_mut(0, 0) = 5;
    *mat2.get_mut(1, 0) = 6;
    *mat2.get_mut(0, 1) = 7;
    *mat2.get_mut(1, 1) = 8;

    let mut dot = Matrix::new(2, 2);
    *dot.get_mut(0, 0) = 19;
    *dot.get_mut(1, 0) = 22;
    *dot.get_mut(0, 1) = 43;
    *dot.get_mut(1, 1) = 50;

    assert_eq!(mat1.dot(&mat2), Ok(dot));
}

#[test]
fn new_is_all_zero() {
    let m: Matrix<i64> = Matrix::new(3, 2);
    assert_eq!(m.width(), 3);
    assert_eq!(m.height(), 2);
    assert_eq!(m.shape(), shape(3, 2));
    for y in 0..2 {
        for x in 0..3 {
            assert_eq!(*m.get(x, y), 0);
        }
    }
}

#[test]
fn set_and_get_address_row_major() {
    let mut m: Matrix<i64> = Matrix::new(3, 2);
    m.set(2, 0, 7);
    m.set(0, 1, 9);
    assert_eq!(*m.get(2, 0), 7);
    assert_eq!(*m.get(0, 1), 9);
    assert_eq!(m.row(0), &[0, 0, 7][..]);
    assert_eq!(m.row(1), &[9, 0, 0][..]);
    assert_eq!(*m.get(1, 1), 0);
}

#[test]
fn get_mut_writes_one_element() {
    let mut m: Matrix<i64> = Matrix::new(2, 2);
    *m.get_mut(1, 0) = 5;
    assert_eq!(m, from_rows(&[&[0, 5], &[0, 0]]));
}

#[test]
fn rows_come_in_order_and_end() {
    let m = from_rows(&[&[1, 2, 3], &[4, 5, 6]]);
    let mut rows = m.rows();
    assert_eq!(rows.next(), Some(&[1, 2, 3][..]));
    assert_eq!(rows.next(), Some(&[4, 5, 6][..]));
    assert_eq!(rows.next(), None);
    assert_eq!(rows.next(), None);
    let mut again = m.rows();
    assert_eq!(again.next(), Some(&[1, 2, 3][..]));
}

#[test]
fn rows_of_an_empty_matrix() {
    let m: Matrix<i64> = Matrix::new(4, 0);
    assert_eq!(m.rows().next(), None);
    let n: Matrix<i64> = Matrix::new(0, 2);
    let mut rows = n.rows();
    assert_eq!(rows.next(), Some(&[][..]));
    assert_eq!(rows.next(), Some(&[][..]));
    assert_eq!(rows.next(), None);
}

#[test]
fn map_sees_coordinates_and_values() {
    let mut m = from_rows(&[&[1, 2, 3], &[4, 5, 6]]);
    m.map(|(x, y): (usize, usize), v: i64| v * 100 + (x as i64) * 10 + (y as i64));
    assert_eq!(m, from_rows(&[&[100, 210, 320], &[401, 511, 621]]));
    assert_eq!(m.shape(), shape(3, 2));
}

#[test]
fn add_is_elementwise() {
    let a = from_rows(&[&[1, 2], &[3, 4], &[5, 6]]);
    let b = from_rows(&[&[10, 20], &[30, 40], &[50, 60]]);
    assert_eq!(a.add(&b), Ok(from_rows(&[&[11, 22], &[33, 44], &[55, 66]])));
}

#[test]
fn sub_is_elementwise() {
    let a = from_rows(&[&[1, 2], &[3, 4]]);
    let b = from_rows(&[&[10, 20], &[30, 50]]);
    assert_eq!(a.sub(&b), Ok(from_rows(&[&[-9, -18], &[-27, -46]])));
}

#[test]
fn add_assign_and_sub_assign_change_in_place() {
    let mut a = from_rows(&[&[1, 2], &[3, 4]]);
    let b = from_rows(&[&[5, 5], &[5, 5]]);
    assert_eq!(a.add_assign(&b), Ok(()));
    assert_eq!(a, from_rows(&[&[6, 7], &[8, 9]]));
    assert_eq!(a.sub_assign(&b), Ok(()));
    assert_eq!(a, from_rows(&[&[1, 2], &[3, 4]]));
}

#[test]
fn add_then_sub_gives_the_first_back() {
    let a = from_rows(&[&[1, -2, 3], &[i64::MAX, i64::MIN, 0]]);
    let b = from_rows(&[&[7, 8, -9], &[1, -1, i64::MAX]]);
    let sum = a.clone().add(&b).unwrap();
    assert_eq!(sum.sub(&b), Ok(a));
}

#[test]
fn arithmetic_wraps_around() {
    let a = from_rows(&[&[i64::MAX, i64::MIN]]);
    let b = from_rows(&[&[1, -1]]);
    assert_eq!(a.clone().add(&b), Ok(from_rows(&[&[i64::MIN, i64::MAX]])));
    let c = from_rows(&[&[i64::MIN, i64::MAX]]);
    assert_eq!(c.sub(&b), Ok(from_rows(&[&[i64::MAX, i64::MIN]])));
    assert_eq!(a.mul(2), from_rows(&[&[-2, 0]]));
}

#[test]
fn mismatched_add_is_refused_and_changes_nothing() {
    let mut a = from_rows(&[&[1, 2], &[3, 4]]);
    let b = from_rows(&[&[1, 2, 3], &[4, 5, 6]]);
    let err = Error::ShapeMismatch { expected: shape(2, 2), actual: shape(3, 2) };
    assert_eq!(a.add_assign(&b), Err(err));
    assert_eq!(a, from_rows(&[&[1, 2], &[3, 4]]));
    assert_eq!(a.add(&b), Err(err));
}

#[test]
fn mismatched_sub_is_refused_and_changes_nothing() {
    let mut a = from_rows(&[&[1, 2], &[3, 4]]);
    let b = from_rows(&[&[1, 2]]);
    let err = Error::ShapeMismatch { expected: shape(2, 2), actual: shape(2, 1) };
    assert_eq!(a.sub_assign(&b), Err(err));
    assert_eq!(a, from_rows(&[&[1, 2], &[3, 4]]));
    assert_eq!(a.sub(&b), Err(err));
}

#[test]
fn transposed_shapes_do_not_add() {
    let a: Matrix<i64> = Matrix::new(2, 3);
    let b: Matrix<i64> = Matrix::new(3, 2);
    assert_eq!(
        a.add(&b),
        Err(Error::ShapeMismatch { expected: shape(2, 3), actual: shape(3, 2) })
    );
}

#[test]
fn mul_scales_every_element() {
    let a = from_rows(&[&[1, -2], &[3, 0]]);
    assert_eq!(a.mul(-3), from_rows(&[&[-3, 6], &[-9, 0]]));
    let mut b = from_rows(&[&[4], &[5]]);
    b.mul_assign(10);
    assert_eq!(b, from_rows(&[&[40], &[50]]));
    let mut empty: Matrix<i64> = Matrix::new(0, 0);
    empty.mul_assign(3);
    assert_eq!(empty, Matrix::new(0, 0));
}

#[test]
fn dot_of_rectangles() {
    // 3 wide, 2 high times 2 wide, 3 high gives 2 wide, 2 high.
    let a = from_rows(&[&[1, 2, 3], &[4, 5, 6]]);
    let b = from_rows(&[&[7, 8], &[9, 10], &[11, 12]]);
    assert_eq!(a.dot(&b), Ok(from_rows(&[&[58, 64], &[139, 154]])));
}

#[test]
fn dot_is_not_elementwise_and_not_commutative() {
    let a = from_rows(&[&[1, 2], &[3, 4]]);
    let b = from_rows(&[&[5, 6], &[7, 8]]);
    assert_eq!(b.dot(&a), Ok(from_rows(&[&[23, 34], &[31, 46]])));
}

#[test]
fn dot_is_associative() {
    let a = from_rows(&[&[1, -2, 3], &[4, 5, -6]]);
    let b = from_rows(&[&[7, 8], &[-9, 10], &[11, 12]]);
    let c = from_rows(&[&[2, 0, -1, 3], &[1, 4, 5, -2]]);
    let left = a.dot(&b).unwrap().dot(&c).unwrap();
    let right = a.dot(&b.dot(&c).unwrap()).unwrap();
    assert_eq!(left, right);
    assert_eq!(left, from_rows(&[&[140, 96, 62, 126], &[-156, 40, 133, -269]]));
}

#[test]
fn dot_is_associative_when_it_wraps() {
    let a = from_rows(&[&[i64::MAX, 3], &[5, i64::MIN]]);
    let b = from_rows(&[&[i64::MAX, 7], &[11, 13]]);
    let c = from_rows(&[&[17, i64::MIN], &[i64::MAX, 19]]);
    let left = a.dot(&b).unwrap().dot(&c).unwrap();
    let right = a.dot(&b.dot(&c).unwrap()).unwrap();
    assert_eq!(left, right);
}

#[test]
fn dot_with_the_identity_changes_nothing() {
    let a = from_rows(&[&[1, 2, 3], &[4, 5, 6]]);
    let three = from_rows(&[&[1, 0, 0], &[0, 1, 0], &[0, 0, 1]]);
    let two = from_rows(&[&[1, 0], &[0, 1]]);
    assert_eq!(a.dot(&three), Ok(a.clone()));
    assert_eq!(two.dot(&a), Ok(a));
}

#[test]
fn mismatched_dot_is_refused() {
    let a = from_rows(&[&[1, 2, 3], &[4, 5, 6]]);
    let b = from_rows(&[&[1, 2], &[3, 4]]);
    assert_eq!(
        a.dot(&b),
        Err(Error::ShapeMismatch { expected: shape(2, 3), actual: shape(2, 2) })
    );
    assert_eq!(a.dot(&a), Err(Error::ShapeMismatch { expected: shape(3, 3), actual: shape(3, 2) }));
}

#[test]
fn dot_over_an_empty_shared_dimension_is_zero() {
    let a: Matrix<i64> = Matrix::new(0, 2);
    let b: Matrix<i64> = Matrix::new(3, 0);
    let product = a.dot(&b).unwrap();
    assert_eq!(product.shape(), shape(3, 2));
    assert_eq!(product, Matrix::new(3, 2));
}

#[test]
fn dot_of_empty_results() {
    let a: Matrix<i64> = Matrix::new(2, 0);
    let b = from_rows(&[&[1, 2, 3], &[4, 5, 6]]);
    let product = a.dot(&b).unwrap();
    assert_eq!(product.shape(), shape(3, 0));
    let c: Matrix<i64> = Matrix::new(0, 2);
    let d = from_rows(&[&[1, 2]]);
    let thin = d.dot(&c).unwrap();
    assert_eq!(thin.shape(), shape(0, 1));
}

#[test]
fn clone_is_equal_and_independent() {
    let a = from_rows(&[&[1, 2], &[3, 4]]);
    let mut b = a.clone();
    assert_eq!(a, b);
    b.set(0, 0, 9);
    assert_eq!(*a.get(0, 0), 1);
    assert_eq!(*b.get(0, 0), 9);
}

#[test]
fn render_lists_the_rows_between_brackets() {
    let m = from_rows(&[&[1, 2], &[-3, 4]]);
    assert_eq!(m.render(), "[\n  [1, 2],\n  [-3, 4],\n]");
    let empty: Matrix<i64> = Matrix::new(3, 0);
    assert_eq!(empty.render(), "[\n]");
    let thin: Matrix<i64> = Matrix::new(0, 2);
    assert_eq!(thin.render(), "[\n  [],\n  [],\n]");
}

#[test]
fn row_mut_writes_one_row() {
    let mut m = from_rows(&[&[1, 2, 3], &[4, 5, 6], &[7, 8, 9]]);
    {
        let row = m.row_mut(1);
        assert_eq!(row, &mut [4, 5, 6][..]);
        assert_eq!(row.len(), 3);
        row[0] = 40;
        row[2] = 60;
    }
    assert_eq!(m, from_rows(&[&[1, 2, 3], &[40, 5, 60], &[7, 8, 9]]));
    m.row_mut(0)[1] = 20;
    m.row_mut(2)[1] = 80;
    assert_eq!(m, from_rows(&[&[1, 20, 3], &[40, 5, 60], &[7, 80, 9]]));
    let mut thin: Matrix<i64> = Matrix::new(0, 2);
    assert_eq!(thin.row_mut(1).len(), 0);
}

#[test]
fn indexing_reads_rows_and_elements() {
    let m = from_rows(&[&[1, 2, 3], &[4, 5, 6]]);
    assert_eq!(m[0], [1, 2, 3]);
    assert_eq!(m[1], [4, 5, 6]);
    assert_eq!(m[1][2], 6);
    assert_eq!(m[(2, 1)], 6);
    assert_eq!(m[(0, 1)], 4);
    assert_eq!(m[(1, 0)], 2);
}

#[test]
fn matrices_of_i32_wrap_at_their_own_width() {
    let mut a: Matrix<i32> = Matrix::new(2, 1);
    a.set(0, 0, i32::MAX);
    a.set(1, 0, i32::MIN);
    let mut b: Matrix<i32> = Matrix::new(2, 1);
    b.set(0, 0, 1);
    b.set(1, 0, -1);
    let sum = a.clone().add(&b).unwrap();
    assert_eq!(sum[0], [i32::MIN, i32::MAX]);
    assert_eq!(sum.sub(&b), Ok(a.clone()));
    assert_eq!(a.clone().mul(3)[0], [i32::MAX - 2, i32::MIN]);
    let mut column: Matrix<i32> = Matrix::new(1, 2);
    column.set(0, 0, 2);
    column.set(0, 1, 2);
    // 2 * MAX + 2 * MIN = -2, whatever wrapped on the way
    assert_eq!(a.dot(&column).unwrap()[(0, 0)], -2);
}
