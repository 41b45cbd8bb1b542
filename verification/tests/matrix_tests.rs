use cranium_rs::matrix::Matrix;
use cranium_rs::scalar::Scalar;

#[derive(Clone, Copy, Debug, PartialEq)]
struct Real(f32);

impl Scalar for Real {
    fn zero() -> Real {
        Real(0.0)
    }
    fn one() -> Real {
        Real(1.0)
    }
    fn pi() -> Real {
        Real(std::f32::consts::PI)
    }
    fn tiny() -> Real {
        Real(f32::MIN_POSITIVE)
    }
    fn from_count(n: usize) -> Real {
        Real(n as f32)
    }
    fn negate(self) -> Real {
        Real(-self.0)
    }
    fn plus(self, rhs: Real) -> Real {
        Real(self.0 + rhs.0)
    }
    fn minus(self, rhs: Real) -> Real {
        Real(self.0 - rhs.0)
    }
    fn times(self, rhs: Real) -> Real {
        Real(self.0 * rhs.0)
    }
    fn over(self, rhs: Real) -> Real {
        Real(self.0 / rhs.0)
    }
    fn exp(self) -> Real {
        Real(self.0.exp())
    }
    fn ln(self) -> Real {
        Real(self.0.ln())
    }
    fn tanh(self) -> Real {
        Real(self.0.tanh())
    }
    fn sqrt(self) -> Real {
        Real(self.0.sqrt())
    }
    fn sin(self) -> Real {
        Real(self.0.sin())
    }
    fn cos(self) -> Real {
        Real(self.0.cos())
    }
    fn greater(self, rhs: Real) -> bool {
        self.0 > rhs.0
    }
    fn same(self, rhs: Real) -> bool {
        self.0 == rhs.0
    }
}

fn cells(rows: Vec<Vec<f32>>) -> Vec<Vec<Real>> {
    rows.into_iter().map(|row| row.into_iter().map(Real).collect()).collect()
}

#[test]
fn test_create_matrix() {
    let rows = 3;
    let cols = 2;
    let data = cells(vec![vec![1.0, 2.0], vec![3.0, 4.0], vec![5.0, 6.0]]);
    let matrix = Matrix::create_matrix(rows, cols, data.clone());

    assert_eq!(matrix.rows, rows);
    assert_eq!(matrix.cols, cols);
    assert_eq!(matrix.data, data);
}

#[test]
fn test_create_zero_matrix() {
    let rows = 3;
    let cols = 2;
    let data = cells(vec![vec![0.0; cols]; rows]);
    let matrix = Matrix::create_matrix(rows, cols, data.clone());

    assert_eq!(matrix.rows, rows);
    assert_eq!(matrix.cols, cols);
    assert_eq!(matrix.data, data);
}

#[test]
fn test_get() {
    let rows = 3;
    let cols = 2;
    let data = cells(vec![vec![1.0, 2.0], vec![3.0, 4.0], vec![5.0, 6.0]]);
    let matrix = Matrix::create_matrix(rows, cols, data);

    assert_eq!(matrix.get(0, 0).0, 1.0);
    assert_eq!(matrix.get(0, 1).0, 2.0);
    assert_eq!(matrix.get(1, 0).0, 3.0);
    assert_eq!(matrix.get(1, 1).0, 4.0);
    assert_eq!(matrix.get(2, 0).0, 5.0);
    assert_eq!(matrix.get(2, 1).0, 6.0);
}

#[test]
fn test_set() {
    let rows = 3;
    let cols = 2;
    let data = cells(vec![vec![1.0, 2.0], vec![3.0, 4.0], vec![5.0, 6.0]]);
    let mut matrix = Matrix::create_matrix(rows, cols, data);

    matrix.set(0, 1, Real(10.0));
    matrix.set(1, 1, Real(11.0));
    matrix.set(2, 1, Real(12.0));

    assert_eq!(matrix.get(0, 1).0, 10.0);
    assert_eq!(matrix.get(1, 1).0, 11.0);
    assert_eq!(matrix.get(2, 1).0, 12.0);
}

#[test]
fn test_to_zero() {
    let rows = 3;
    let cols = 2;
    let data = cells(vec![vec![1.0, 2.0], vec![3.0, 4.0], vec![5.0, 6.0]]);
    let mut matrix = Matrix::create_matrix(rows, cols, data);

    matrix.to_zero();

    let data_zero = cells(vec![vec![0.0, 0.0], vec![0.0, 0.0], vec![0.0, 0.0]]);

    assert_eq!(matrix.rows, rows);
    assert_eq!(matrix.cols, cols);
    assert_eq!(matrix.data, data_zero);
}

#[test]
fn test_copy() {
    let rows = 3;
    let cols = 2;
    let data = cells(vec![vec![1.0, 2.0], vec![3.0, 4.0], vec![5.0, 6.0]]);
    let matrix = Matrix::create_matrix(rows, cols, data);

    let copied_matrix = matrix.copy();

    assert_eq!(matrix.rows, copied_matrix.rows);
    assert_eq!(matrix.cols, copied_matrix.cols);
    assert_eq!(matrix.data, copied_matrix.data);
}

#[test]
fn test_copy_into() {
    let rows = 3;
    let cols = 2;
    let data_from = cells(vec![vec![1.0, 2.0], vec![3.0, 4.0], vec![5.0, 6.0]]);
    let from = Matrix::create_matrix(rows, cols, data_from.clone());

    let data_to = cells(vec![vec![7.0, 8.0], vec![9.0, 10.0], vec![11.0, 12.0]]);
    let mut to = Matrix::create_matrix(rows, cols, data_to);

    from.copy_into(&mut to);

    assert_eq!(to.data, data_from);
}

#[test]
fn test_transpose() {
    let rows = 3;
    let cols = 2;
    let data = cells(vec![vec![1.0, 2.0], vec![3.0, 4.0], vec![5.0, 6.0]]);
    let matrix = Matrix::create_matrix(rows, cols, data);

    let transpoded_matrix = matrix.transpose();

    let transpoded_data = cells(vec![vec![1.0, 3.0, 5.0], vec![2.0, 4.0, 6.0]]);

    assert_eq!(transpoded_matrix.data, transpoded_data);
}

#[test]
fn test_transpose_into() {
    let rows = 3;
    let cols = 2;
    let data1 = cells(vec![vec![1.0, 2.0], vec![3.0, 4.0], vec![5.0, 6.0]]);
    let from = Matrix::create_matrix(rows, cols, data1);

    let data2 = cells(vec![vec![7.0, 9.0, 11.0], vec![8.0, 10.0, 12.0]]);
    let mut to = Matrix::create_matrix(cols, rows, data2);

    from.transpose_into(&mut to);

    let transpoded_data = cells(vec![vec![1.0, 3.0, 5.0], vec![2.0, 4.0, 6.0]]);

    assert_eq!(to.data, transpoded_data);
}

#[test]
fn test_add() {
    let rows = 3;
    let cols = 2;
    let data1 = cells(vec![vec![1.0, 2.0], vec![3.0, 4.0], vec![5.0, 6.0]]);
    let matrix1 = Matrix::create_matrix(rows, cols, data1);

    let data2 = cells(vec![vec![7.0, 8.0], vec![9.0, 10.0], vec![11.0, 12.0]]);
    let matrix2 = Matrix::create_matrix(rows, cols, data2);

    let matrix_sum = matrix1.add(&matrix2);

    assert_eq!(matrix_sum.get(0, 0).0, 8.0);
    assert_eq!(matrix_sum.get(0, 1).0, 10.0);
    assert_eq!(matrix_sum.get(1, 0).0, 12.0);
    assert_eq!(matrix_sum.get(1, 1).0, 14.0);
    assert_eq!(matrix_sum.get(2, 0).0, 16.0);
    assert_eq!(matrix_sum.get(2, 1).0, 18.0);
}

#[test]
fn test_add_to() {
    let rows = 3;
    let cols = 2;
    let data1 = cells(vec![vec![1.0, 2.0], vec![3.0, 4.0], vec![5.0, 6.0]]);
    let matrix1 = Matrix::create_matrix(rows, cols, data1);

    let data2 = cells(vec![vec![7.0, 8.0], vec![9.0, 10.0], vec![11.0, 12.0]]);
    let mut matrix2 = Matrix::create_matrix(rows, cols, data2);

    matrix1.add_to(&mut matrix2);

    assert_eq!(matrix2.get(0, 0).0, 8.0);
    assert_eq!(matrix2.get(0, 1).0, 10.0);
    assert_eq!(matrix2.get(1, 0).0, 12.0);
    assert_eq!(matrix2.get(1, 1).0, 14.0);
    assert_eq!(matrix2.get(2, 0).0, 16.0);
    assert_eq!(matrix2.get(2, 1).0, 18.0);
}

#[test]
fn test_add_to_each_row() {
    let rows = 3;
    let cols = 2;
    let data1 = cells(vec![vec![1.0, 2.0], vec![3.0, 4.0], vec![5.0, 6.0]]);
    let matrix1 = Matrix::create_matrix(rows, cols, data1);

    let data2 = cells(vec![vec![1.0, 2.0]]);
    let matrix2 = Matrix::create_matrix(1, cols, data2);

    let result = matrix1.add_to_each_row(&matrix2);

    assert_eq!(result.get(0, 0).0, 2.0);
    assert_eq!(result.get(0, 1).0, 4.0);
    assert_eq!(result.get(1, 0).0, 4.0);
    assert_eq!(result.get(1, 1).0, 6.0);
    assert_eq!(result.get(2, 0).0, 6.0);
    assert_eq!(result.get(2, 1).0, 8.0);
}

#[test]
fn test_scalar_multiply() {
    let rows = 3;
    let cols = 2;
    let data = cells(vec![vec![1.0, 2.0], vec![3.0, 4.0], vec![5.0, 6.0]]);
    let mut matrix = Matrix::create_matrix(rows, cols, data);

    matrix.scalar_multiply(Real(2.0));

    assert_eq!(matrix.get(0, 0).0, 2.0);
    assert_eq!(matrix.get(0, 1).0, 4.0);
    assert_eq!(matrix.get(1, 0).0, 6.0);
    assert_eq!(matrix.get(1, 1).0, 8.0);
    assert_eq!(matrix.get(2, 0).0, 10.0);
    assert_eq!(matrix.get(2, 1).0, 12.0);
}

#[test]
fn test_multiply() {
    let rows1 = 3;
    let cols1 = 2;
    let data1 = cells(vec![vec![1.0, 2.0], vec![3.0, 4.0], vec![5.0, 6.0]]);
    let matrix1 = Matrix::create_matrix(rows1, cols1, data1);

    let rows2 = 2;
    let cols2 = 3;
    let data2 = cells(vec![vec![7.0, 8.0, 9.0], vec![10.0, 11.0, 12.0]]);
    let matrix2 = Matrix::create_matrix(rows2, cols2, data2);

    let result = matrix1.multiply(&matrix2);

    assert_eq!(result.get(0, 0).0, 27.0);
    assert_eq!(result.get(0, 1).0, 30.0);
    assert_eq!(result.get(0, 2).0, 33.0);
    assert_eq!(result.get(1, 0).0, 61.0);
    assert_eq!(result.get(1, 1).0, 68.0);
    assert_eq!(result.get(1, 2).0, 75.0);
    assert_eq!(result.get(2, 0).0, 95.0);
    assert_eq!(result.get(2, 1).0, 106.0);
    assert_eq!(result.get(2, 2).0, 117.0);
}

#[test]
fn test_multiply_into() {
    let rows1 = 3;
    let cols1 = 2;
    let data1 = cells(vec![vec![1.0, 2.0], vec![3.0, 4.0], vec![5.0, 6.0]]);
    let matrix1 = Matrix::create_matrix(rows1, cols1, data1);

    let rows2 = 2;
    let cols2 = 3;
    let data2 = cells(vec![vec![7.0, 8.0, 9.0], vec![10.0, 11.0, 12.0]]);
    let matrix2 = Matrix::create_matrix(rows2, cols2, data2);

    let mut result = Matrix::create_zero_matrix(rows1, cols2);

    matrix1.multiply_into(&matrix2, &mut result);

    assert_eq!(result.get(0, 0).0, 27.0);
    assert_eq!(result.get(0, 1).0, 30.0);
    assert_eq!(result.get(0, 2).0, 33.0);
    assert_eq!(result.get(1, 0).0, 61.0);
    assert_eq!(result.get(1, 1).0, 68.0);
    assert_eq!(result.get(1, 2).0, 75.0);
    assert_eq!(result.get(2, 0).0, 95.0);
    assert_eq!(result.get(2, 1).0, 106.0);
    assert_eq!(result.get(2, 2).0, 117.0);
}

#[test]
fn test_hadamard() {
    let rows = 3;
    let cols = 2;
    let data1 = cells(vec![vec![1.0, 2.0], vec![3.0, 4.0], vec![5.0, 6.0]]);
    let matrix1 = Matrix::create_matrix(rows, cols, data1);

    let data2 = cells(vec![vec![7.0, 8.0], vec![9.0, 10.0], vec![11.0, 12.0]]);
    let matrix2 = Matrix::create_matrix(rows, cols, data2);

    let result = matrix1.hadamard(&matrix2);

    assert_eq!(result.get(0, 0).0, 7.0);
    assert_eq!(result.get(0, 1).0, 16.0);
    assert_eq!(result.get(1, 0).0, 27.0);
    assert_eq!(result.get(1, 1).0, 40.0);
    assert_eq!(result.get(2, 0).0, 55.0);
    assert_eq!(result.get(2, 1).0, 72.0);
}

#[test]
fn test_hadamard_into() {
    let rows = 3;
    let cols = 2;
    let data1 = cells(vec![vec![1.0, 2.0], vec![3.0, 4.0], vec![5.0, 6.0]]);
    let matrix1 = Matrix::create_matrix(rows, cols, data1);

    let data2 = cells(vec![vec![7.0, 8.0], vec![9.0, 10.0], vec![11.0, 12.0]]);
    let matrix2 = Matrix::create_matrix(rows, cols, data2);

    let mut result = Matrix::create_zero_matrix(rows, cols);

    matrix1.hadamard_into(&matrix2, &mut result);

    assert_eq!(result.get(0, 0).0, 7.0);
    assert_eq!(result.get(0, 1).0, 16.0);
    assert_eq!(result.get(1, 0).0, 27.0);
    assert_eq!(result.get(1, 1).0, 40.0);
    assert_eq!(result.get(2, 0).0, 55.0);
    assert_eq!(result.get(2, 1).0, 72.0);
}

#[test]
fn test_equals() {
    let rows = 3;
    let cols = 2;
    let data1 = cells(vec![vec![1.0, 2.0], vec![3.0, 4.0], vec![5.0, 6.0]]);
    let matrix1 = Matrix::create_matrix(rows, cols, data1.clone());
    let matrix2 = Matrix::create_matrix(rows, cols, data1);

    let data2 = cells(vec![vec![7.0, 8.0], vec![9.0, 10.0], vec![11.0, 12.0]]);
    let matrix3 = Matrix::create_matrix(rows, cols, data2);

    assert_eq!(matrix1.equals(&matrix2), true);
    assert_eq!(matrix1.equals(&matrix3), false);
    assert_eq!(matrix2.equals(&matrix3), false);
}

fn plain(rows: &Vec<Vec<Real>>) -> Vec<Vec<f32>> {
    rows.iter().map(|row| row.iter().map(|x| x.0).collect()).collect()
}

fn sample_table(rows: usize, cols: usize, seed: u32) -> Vec<Vec<f32>> {
    let mut state = seed;
    let mut table = Vec::new();
    for _ in 0..rows {
        let mut row = Vec::new();
        for _ in 0..cols {
            state = state.wrapping_mul(1664525).wrapping_add(1013904223);
            row.push(((state >> 8) as f32) / 16777216.0 * 4.0 - 2.0);
        }
        table.push(row);
    }
    table
}

#[test]
fn zero_matrix_holds_zeros_only() {
    let matrix: Matrix<Real> = Matrix::create_zero_matrix(2, 3);
    assert_eq!(matrix.rows, 2);
    assert_eq!(matrix.cols, 3);
    assert_eq!(plain(&matrix.data), vec![vec![0.0; 3]; 2]);
}

#[test]
fn multiply_matches_the_triple_loop() {
    let a = sample_table(4, 3, 7);
    let b = sample_table(3, 5, 11);
    let product = Matrix::create_matrix(4, 3, cells(a.clone()))
        .multiply(&Matrix::create_matrix(3, 5, cells(b.clone())));
    assert_eq!(product.rows, 4);
    assert_eq!(product.cols, 5);
    for i in 0..4 {
        for j in 0..5 {
            let mut sum: f32 = 0.0;
            for k in 0..3 {
                sum += a[i][k] * b[k][j];
            }
            assert_eq!(product.get(i, j).0, sum);
        }
    }
}

#[test]
fn multiply_into_forgets_what_the_destination_held() {
    let a = Matrix::create_matrix(1, 2, cells(vec![vec![2.0, 3.0]]));
    let b = Matrix::create_matrix(2, 1, cells(vec![vec![5.0], vec![7.0]]));
    let mut into = Matrix::create_matrix(1, 1, cells(vec![vec![1000.0]]));
    a.multiply_into(&b, &mut into);
    assert_eq!(plain(&into.data), vec![vec![31.0]]);
}

#[test]
fn transposing_twice_gives_the_matrix_back() {
    let table = sample_table(3, 5, 3);
    let matrix = Matrix::create_matrix(3, 5, cells(table.clone()));
    let once = matrix.transpose();
    assert_eq!(once.rows, 5);
    assert_eq!(once.cols, 3);
    let twice = once.transpose();
    assert_eq!(twice.rows, 3);
    assert_eq!(twice.cols, 5);
    assert_eq!(plain(&twice.data), table);
    assert!(twice.equals(&matrix));
}

#[test]
fn add_and_hadamard_do_not_depend_on_the_order() {
    let a = Matrix::create_matrix(3, 4, cells(sample_table(3, 4, 1)));
    let b = Matrix::create_matrix(3, 4, cells(sample_table(3, 4, 2)));
    assert_eq!(a.add(&b).data, b.add(&a).data);
    assert_eq!(a.hadamard(&b).data, b.hadamard(&a).data);
}

#[test]
fn equals_tells_shapes_apart() {
    let wide = Matrix::create_matrix(1, 2, cells(vec![vec![1.0, 1.0]]));
    let tall = Matrix::create_matrix(2, 1, cells(vec![vec![1.0], vec![1.0]]));
    assert!(!wide.equals(&tall));
    assert!(wide.equals(&wide.copy()));
}

#[test]
fn equals_sees_a_single_cell() {
    let a = Matrix::create_matrix(2, 2, cells(vec![vec![1.0, 2.0], vec![3.0, 4.0]]));
    let b = Matrix::create_matrix(2, 2, cells(vec![vec![1.0, 2.0], vec![3.0, 4.5]]));
    assert!(!a.equals(&b));
}

#[test]
fn transform_maps_every_cell() {
    let mut matrix = Matrix::create_matrix(2, 2, cells(vec![vec![1.0, 2.0], vec![3.0, 4.0]]));
    matrix.transform(|x: Real| Real(x.0 * x.0 + 1.0));
    assert_eq!(plain(&matrix.data), vec![vec![2.0, 5.0], vec![10.0, 17.0]]);
}

#[test]
fn copy_is_independent_of_its_source() {
    let matrix = Matrix::create_matrix(1, 2, cells(vec![vec![1.0, 2.0]]));
    let mut copied = matrix.copy();
    copied.set(0, 0, Real(9.0));
    assert_eq!(matrix.get(0, 0).0, 1.0);
    assert_eq!(copied.get(0, 0).0, 9.0);
}

#[test]
fn add_to_each_row_adds_the_bias_to_every_row() {
    let matrix = Matrix::create_matrix(2, 3, cells(vec![vec![0.0, 0.0, 0.0], vec![1.0, 1.0, 1.0]]));
    let bias = Matrix::create_matrix(1, 3, cells(vec![vec![0.5, -1.0, 2.0]]));
    let result = matrix.add_to_each_row(&bias);
    assert_eq!(result.rows, 2);
    assert_eq!(result.cols, 3);
    assert_eq!(plain(&result.data), vec![vec![0.5, -1.0, 2.0], vec![1.5, 0.0, 3.0]]);
}
