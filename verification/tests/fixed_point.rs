use dense_kernel::elimination::do_gaussian_elimination;
use dense_kernel::error::KernelError;
use dense_kernel::fixed::Fixed;
use dense_kernel::fixed::FIXED_SCALE;
use dense_kernel::lu::lu_decomposition;
use dense_kernel::lu::solve_by_lu_decomposition;
use dense_kernel::matrix::Matrix;
use dense_kernel::matrix::Vector;
use dense_kernel::scalar::epsilon;
use dense_kernel::scalar::Scalar;

fn fixed(units: i64, over: i64) -> Fixed {
    Fixed::from_int(units).over(Fixed::from_int(over))
}

fn close(x: Fixed, units: i64, over: i64) -> bool {
    (x.raw - fixed(units, over).raw).abs() < 64
}

#[test]
fn fixed_counts_in_two_to_the_minus_32() {
    assert_eq!(FIXED_SCALE, 1 << 32);
    assert_eq!(Fixed::from_int(3).raw, 3 << 32);
    assert_eq!(Fixed::from_int(-3).raw, -(3 << 32));
    assert_eq!(Fixed::from_int(i64::MAX).raw, i64::MAX);
    assert_eq!(Fixed::from_int(i64::MIN).raw, i64::MIN);
    assert_eq!(Fixed::from_int(-2_147_483_648).raw, i64::MIN);
    assert_eq!(Fixed::from_int(2_147_483_647).raw, 2_147_483_647 << 32);
}

#[test]
fn fixed_sums_stop_at_the_ends() {
    let big = Fixed { raw: i64::MAX - 1 };
    assert_eq!(big.plus(Fixed { raw: 5 }).raw, i64::MAX);
    assert_eq!(Fixed { raw: i64::MIN + 1 }.minus(Fixed { raw: 5 }).raw, i64::MIN);
    assert_eq!(Fixed::from_int(2).plus(Fixed::from_int(3)), Fixed::from_int(5));
    assert_eq!(Fixed::from_int(2).minus(Fixed::from_int(3)), Fixed::from_int(-1));
}

#[test]
fn fixed_products_and_quotients_are_cut_toward_zero() {
    assert_eq!(Fixed::from_int(6).times(Fixed::from_int(-7)), Fixed::from_int(-42));
    assert_eq!(Fixed { raw: 1 }.times(Fixed { raw: 1 }).raw, 0);
    assert_eq!(Fixed { raw: -3 }.times(Fixed { raw: 1 << 31 }).raw, -1);
    assert_eq!(Fixed::from_int(1).over(Fixed::from_int(2)).raw, 1 << 31);
    assert_eq!(Fixed::from_int(-1).over(Fixed::from_int(3)).raw, -1_431_655_765);
    assert_eq!(Fixed::from_int(1).over(Fixed::from_int(-3)).raw, -1_431_655_765);
    assert_eq!(Fixed::from_int(5).over(Fixed { raw: 0 }).raw, i64::MAX);
    assert_eq!(Fixed::from_int(-5).over(Fixed { raw: 0 }).raw, i64::MIN);
    assert_eq!(Fixed { raw: i64::MAX }.times(Fixed { raw: i64::MAX }).raw, i64::MAX);
    assert_eq!(Fixed { raw: i64::MIN }.times(Fixed { raw: i64::MAX }).raw, i64::MIN);
    assert_eq!(Fixed { raw: i64::MAX }.over(Fixed { raw: 1 }).raw, i64::MAX);
}

#[test]
fn fixed_roots_signs_and_magnitudes() {
    assert_eq!(Fixed::from_int(4).sqrt(), Fixed::from_int(2));
    assert_eq!(Fixed::from_int(2).sqrt().raw, 6_074_000_999);
    assert_eq!(Fixed::from_int(-4).sqrt().raw, 0);
    assert_eq!(Fixed { raw: 0 }.sqrt().raw, 0);
    assert_eq!(Fixed { raw: i64::MAX }.sqrt().raw, 199_032_864_766_430);
    assert_eq!(Fixed::from_int(-4).signum(), Fixed::from_int(-1));
    assert_eq!(Fixed::from_int(4).signum(), Fixed::from_int(1));
    assert_eq!(Fixed { raw: 0 }.signum(), Fixed::from_int(1));
    assert_eq!(Fixed { raw: -5 }.magnitude(), 5);
    assert_eq!(Fixed { raw: i64::MIN }.magnitude(), 1 << 63);
}

#[test]
fn fixed_threshold_is_two_units() {
    assert_eq!(epsilon::<Fixed>().raw, 2);
}

#[test]
fn elimination_on_fixed_entries() {
    let rows = [[2, 1, -1, 8], [-3, -1, 2, -11], [-2, 1, 2, -3]];
    let mut ab = Matrix::<Fixed, 3, 4>::from_fn(|i, j| Fixed::from_int(rows[i][j]));
    assert_eq!(do_gaussian_elimination(&mut ab), Ok(()));
    let expected = [
        [(-3, 1), (-1, 1), (2, 1), (-11, 1)],
        [(0, 1), (5, 3), (2, 3), (13, 3)],
        [(0, 1), (0, 1), (1, 5), (-1, 5)],
    ];
    for i in 0..3 {
        for j in 0..4 {
            assert!(close(ab.get(i, j), expected[i][j].0, expected[i][j].1), "at ({i}, {j})");
        }
    }
}

#[test]
fn factorization_on_fixed_entries() {
    let rows = [[2, 1, -1], [-3, -1, 2], [-2, 1, 2]];
    let a = Matrix::<Fixed, 3, 3>::from_fn(|i, j| Fixed::from_int(rows[i][j]));
    let d = lu_decomposition(&a).unwrap();
    assert_eq!(d.pi, vec![1, 2, 0]);
    for i in 0..3 {
        assert_eq!(d.l.get(i, i), Fixed::from_int(1));
        for j in (i + 1)..3 {
            assert_eq!(d.l.get(i, j), Fixed::from_int(0));
        }
    }
    let b = Vector::<Fixed, 3>::from_fn(|i, _| Fixed::from_int([8, -11, -3][i]));
    let x = solve_by_lu_decomposition(&a, &b).unwrap();
    assert!(close(x.get(0, 0), 2, 1));
    assert!(close(x.get(1, 0), 3, 1));
    assert!(close(x.get(2, 0), -1, 1));
}

#[test]
fn a_zero_column_of_fixed_entries_is_singular() {
    let rows = [[1, 2, 0, 4], [3, 1, 0, 5], [2, 2, 0, 1], [1, 7, 0, 3]];
    let a = Matrix::<Fixed, 4, 4>::from_fn(|i, j| Fixed::from_int(rows[i][j]));
    match lu_decomposition(&a) {
        Err(e) => assert_eq!(e, KernelError::SingularMatrix { column: 2 }),
        Ok(_) => panic!("a zero column went unnoticed"),
    }
}
