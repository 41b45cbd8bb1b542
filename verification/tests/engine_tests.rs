use cranium_rs::function::sigmoid;
use cranium_rs::matrix::Matrix;
use cranium_rs::scalar::Scalar;

#[derive(Clone, Copy, Debug, PartialEq)]
struct Real(f32);

impl Scalar for Real {
    fn zero() -> Real {
        Real(0.0)
    }
    fn one() -> Real {
        Real(1.0)
    }
    fn pi() -> Real {
        Real(std::f32::consts::PI)
    }
    fn tiny() -> Real {
        Real(f32::MIN_POSITIVE)
    }
    fn from_count(n: usize) -> Real {
        Real(n as f32)
    }
    fn negate(self) -> Real {
        Real(-self.0)
    }
    fn plus(self, rhs: Real) -> Real {
        Real(self.0 + rhs.0)
    }
    fn minus(self, rhs: Real) -> Real {
        Real(self.0 - rhs.0)
    }
    fn times(self, rhs: Real) -> Real {
        Real(self.0 * rhs.0)
    }
    fn over(self, rhs: Real) -> Real {
        Real(self.0 / rhs.0)
    }
    fn exp(self) -> Real {
        Real(self.0.exp())
    }
    fn ln(self) -> Real {
        Real(self.0.ln())
    }
    fn tanh(self) -> Real {
        Real(self.0.tanh())
    }
    fn sqrt(self) -> Real {
        Real(self.0.sqrt())
    }
    fn sin(self) -> Real {
        Real(self.0.sin())
    }
    fn cos(self) -> Real {
        Real(self.0.cos())
    }
    fn greater(self, rhs: Real) -> bool {
        self.0 > rhs.0
    }
    fn same(self, rhs: Real) -> bool {
        self.0 == rhs.0
    }
}

fn cells(rows: Vec<Vec<f32>>) -> Vec<Vec<Real>> {
    rows.into_iter().map(|row| row.into_iter().map(Real).collect()).collect()
}

fn plain(rows: &Vec<Vec<Real>>) -> Vec<Vec<f32>> {
    rows.iter().map(|row| row.iter().map(|x| x.0).collect()).collect()
}

#[test]
fn test() {
    let mut matrix = Matrix::create_matrix(1, 3, cells(vec![vec![1.2, 3.4, 5.6]]));
    sigmoid(&mut matrix);
    println!("{:?}", &matrix);
    let expected: Vec<f32> =
        vec![1.2f32, 3.4, 5.6].into_iter().map(|x| 1.0 / (1.0 + (-x).exp())).collect();
    assert_eq!(plain(&matrix.data), vec![expected]);
}
