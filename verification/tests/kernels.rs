//! Kernel behavior on concrete values, with scalar codes interpreted as
//! IEEE-754 single-precision bit patterns computed by the hardware.

use rural::conv;
use rural::matrix::{indices, Matrix, CODE_ONE, CODE_ZERO};
use rural::scalar::{ScalarOps, WrappingInts};
use rural::Error;

/// Hardware single-precision arithmetic on bit patterns.
struct HwF32;

impl ScalarOps for HwF32 {
    // The specification-level operations coincide with the executable ones.
    fn spec_sum(x: u32, y: u32) -> u32 {
        Self::sum_of(x, y)
    }

    fn spec_prod(x: u32, y: u32) -> u32 {
        Self::prod_of(x, y)
    }

    fn spec_quot(x: u32, y: u32) -> u32 {
        Self::quot_of(x, y)
    }

    fn spec_root(x: u32) -> u32 {
        Self::root_of(x)
    }

    fn sum_of(x: u32, y: u32) -> u32 {
        (f32::from_bits(x) + f32::from_bits(y)).to_bits()
    }

    fn prod_of(x: u32, y: u32) -> u32 {
        (f32::from_bits(x) * f32::from_bits(y)).to_bits()
    }

    fn quot_of(x: u32, y: u32) -> u32 {
        (f32::from_bits(x) / f32::from_bits(y)).to_bits()
    }

    fn root_of(x: u32) -> u32 {
        f32::from_bits(x).sqrt().to_bits()
    }
}

fn codes(v: &[f32]) -> Vec<u32> {
    v.iter().map(|x| x.to_bits()).collect()
}

fn floats(v: &[u32]) -> Vec<f32> {
    v.iter().map(|&c| f32::from_bits(c)).collect()
}

fn matrix(rows: &[&[f32]]) -> Matrix {
    let entries: Vec<Vec<u32>> = rows.iter().map(|r| codes(r)).collect();
    Matrix::new(&entries).unwrap()
}

fn cells_of(m: &Matrix) -> Vec<f32> {
    let (rows, cols) = m.shape();
    let mut out = Vec::new();
    for i in 0..rows {
        for j in 0..cols {
            out.push(f32::from_bits(m.get(i, j).unwrap()));
        }
    }
    out
}

#[test]
fn baseline() {
    let input: Vec<u32> = (0..20).map(|i| (i as f32 + 1.).to_bits()).collect();
    let kernel: Vec<u32> = (0..3).map(|_| 1.0f32.to_bits()).collect();

    let result = floats(&conv::conv1d::<HwF32>(&input, &kernel).unwrap());
    println!("conv1d: {result:?}");
    assert_eq!(
        result.as_slice(),
        &[
            6., 9., 12., 15., 18., 21., 24., 27., 30., 33., 36., 39., 42., 45., 48., 51., 54.,
            57.
        ]
    );

    let result = floats(&conv::perforation::conv1d::<HwF32>(&input, &kernel).unwrap());
    println!("perforation::conv1d: {result:?}");
    assert_eq!(
        result.as_slice(),
        &[
            9., 9., 9., 15., 18., 21., 21., 27., 30., 30., 39., 39., 42., 45., 48., 48., 54.,
            57.
        ]
    );
}

#[test]
fn conv_output_length() {
    for (ilen, klen) in [(1usize, 1usize), (5, 2), (9, 9), (20, 3)] {
        let input = vec![0.5f32.to_bits(); ilen];
        let kernel = vec![0.25f32.to_bits(); klen];
        let out = conv::conv1d::<HwF32>(&input, &kernel).unwrap();
        assert_eq!(out.len(), ilen - klen + 1);
    }
}

#[test]
fn conv_kernel_too_large() {
    let input = vec![1.0f32.to_bits(); 2];
    let kernel = vec![1.0f32.to_bits(); 3];
    assert_eq!(
        conv::conv1d::<HwF32>(&input, &kernel),
        Err(Error::KernelTooLarge)
    );
    assert_eq!(
        conv::perforation::conv1d::<HwF32>(&input, &kernel),
        Err(Error::KernelTooLarge)
    );
}

#[test]
fn perforated_degenerate_mask() {
    // Output size one: the first jittered anchor for seed zero lands at or
    // beyond position one, so the mask has no computed position at all.
    let input = vec![1.0f32.to_bits(); 3];
    let kernel = vec![1.0f32.to_bits(); 3];
    assert_eq!(
        conv::perforation::conv1d::<HwF32>(&input, &kernel),
        Err(Error::DegenerateMask)
    );
}

#[test]
fn pseudo_mask_fixture() {
    let (mask, nbrs) = conv::perforation::pseudo_mask(18).unwrap();
    let anchors: Vec<usize> = (0..18).filter(|&i| mask[i]).collect();
    assert_eq!(anchors, vec![1, 3, 4, 5, 7, 8, 11, 12, 13, 14, 16, 17]);
    assert_eq!(nbrs, vec![(0, 1), (2, 1), (6, 5), (9, 8), (10, 11), (15, 14)]);

    assert_eq!(conv::perforation::pseudo_mask(1), Err(Error::DegenerateMask));

    let (mask, nbrs) = conv::perforation::pseudo_mask(0).unwrap();
    assert!(mask.is_empty());
    assert!(nbrs.is_empty());

    let (mask, nbrs) = conv::perforation::pseudo_mask(2).unwrap();
    assert_eq!(mask, vec![false, true]);
    assert_eq!(nbrs, vec![(0, 1)]);
}

#[test]
fn nearest_neighbor_probes_left_first() {
    let arr = [false, true, false, false, true];
    assert_eq!(
        conv::perforation::find_index_of_nearest_neighbor(&arr, 2, true),
        Some(1)
    );
    assert_eq!(
        conv::perforation::find_index_of_nearest_neighbor(&arr, 3, true),
        Some(4)
    );
    assert_eq!(
        conv::perforation::find_index_of_nearest_neighbor(&arr, 0, true),
        Some(1)
    );
    let none = [false, false, false];
    assert_eq!(
        conv::perforation::find_index_of_nearest_neighbor(&none, 1, true),
        None
    );
}

#[test]
fn matmul_values() {
    let a = matrix(&[&[1., 2.], &[3., 4.]]);
    let b = matrix(&[&[5., 6.], &[7., 8.]]);
    let c = a.matmul::<HwF32>(&b).unwrap();
    assert_eq!(cells_of(&c), vec![19., 22., 43., 50.]);
}

#[test]
fn matmul_output_shape() {
    let a = Matrix::random(4, 3, 11);
    let b = Matrix::random(3, 5, 12);
    let c = a.matmul::<HwF32>(&b).unwrap();
    assert_eq!(c.shape(), (4, 5));
}

#[test]
fn matmul_shape_mismatch() {
    let a = Matrix::ones(2, 3);
    let b = Matrix::ones(2, 2);
    assert!(a.matmul::<HwF32>(&b) == Err(Error::ShapeMismatch));
    assert!(a.add::<HwF32>(&b) == Err(Error::ShapeMismatch));
    assert!(a.rand_matmul::<HwF32>(&b, 1.0f32.to_bits()) == Err(Error::ShapeMismatch));
}

#[test]
fn add_zero_matrix_is_identity() {
    let a = matrix(&[&[1., 2., 3.], &[4., 5., 6.]]);
    let b = matrix(&[&[7., 8.], &[9., 10.], &[11., 12.]]);
    let prod = a.matmul::<HwF32>(&b).unwrap();
    let z = Matrix::zeroes(2, 2);
    let sum = prod.add::<HwF32>(&z).unwrap();
    assert!(sum == prod);
}

#[test]
fn integer_model_matmul() {
    let entries: Vec<Vec<u32>> = vec![vec![1, 2], vec![3, 4]];
    let a = Matrix::new(&entries).unwrap();
    let entries: Vec<Vec<u32>> = vec![vec![5, 6], vec![7, 8]];
    let b = Matrix::new(&entries).unwrap();
    let c = a.matmul::<WrappingInts>(&b).unwrap();
    assert_eq!(c.get(0, 0), Ok(19));
    assert_eq!(c.get(0, 1), Ok(22));
    assert_eq!(c.get(1, 0), Ok(43));
    assert_eq!(c.get(1, 1), Ok(50));
    assert_eq!(c.get(2, 0), Err(Error::IndexOutOfBounds));
}

#[test]
fn integer_model_ops() {
    assert_eq!(<WrappingInts as ScalarOps>::root_of(10), 3);
    assert_eq!(<WrappingInts as ScalarOps>::root_of(16), 4);
    assert_eq!(<WrappingInts as ScalarOps>::root_of(0), 0);
    assert_eq!(<WrappingInts as ScalarOps>::root_of(u32::MAX), 65535);
    assert_eq!(<WrappingInts as ScalarOps>::quot_of(7, 0), 0);
    assert_eq!(<WrappingInts as ScalarOps>::sum_of(u32::MAX, 2), 1);
    let x = vec![1u32, 2, 3];
    let y = vec![4u32, 5, 6];
    assert_eq!(rural::math::inner_product::<WrappingInts>(&x, &y, 7), 39);
}

#[test]
fn constructors_fill_values() {
    let m = Matrix::fill(2, 3, 0.5f32.to_bits());
    assert_eq!(m.shape(), (2, 3));
    assert_eq!(cells_of(&m), vec![0.5; 6]);
    let ones = Matrix::ones(1, 4);
    assert_eq!(cells_of(&ones), vec![1.0; 4]);
    assert_eq!(ones.get(0, 0), Ok(CODE_ONE));
    let z = Matrix::zeroes(3, 1);
    assert_eq!(cells_of(&z), vec![0.0; 3]);
    assert_eq!(z.get(2, 0), Ok(CODE_ZERO));

    let mut m = Matrix::zeroes(2, 2);
    assert_eq!(m.set(1, 1, CODE_ONE), Ok(()));
    assert_eq!(m.set(2, 0, CODE_ONE), Err(Error::IndexOutOfBounds));
    assert_eq!(m.get(1, 1), Ok(CODE_ONE));
    assert_eq!(m.row(1).unwrap(), vec![CODE_ZERO, CODE_ONE]);
    assert!(m.row(2) == Err(Error::IndexOutOfBounds));
}

#[test]
fn new_rejects_ragged_rows() {
    let entries: Vec<Vec<u32>> = vec![vec![1, 2], vec![3]];
    assert!(Matrix::new(&entries) == Err(Error::ShapeMismatch));
}

#[test]
fn random_is_reproducible() {
    let a = Matrix::random(3, 4, 1234);
    let b = Matrix::random(3, 4, 1234);
    assert!(a == b);
    let c = Matrix::random(3, 4, 1235);
    assert!(!(a == c));
    for v in cells_of(&a) {
        assert!((-1.0..1.0).contains(&v));
    }
}

#[test]
fn random_golden_codes() {
    let m = Matrix::random(2, 2, 0);
    assert_eq!(m.get(0, 0), Ok(0xbeb3a290));
    assert_eq!(m.get(0, 1), Ok(0xbe712c90));
    assert_eq!(m.get(1, 0), Ok(0xbe8fc088));
    assert_eq!(m.get(1, 1), Ok(0xbf7a2284));
}

#[test]
fn indices_picks_largest() {
    let x = vec![5u32, 1, 9, 9, 3];
    assert_eq!(indices(&x, 2), vec![2, 3]);
    assert_eq!(indices(&x, 0), Vec::<usize>::new());
    assert_eq!(indices(&x, 5), vec![2, 3, 0, 4, 1]);
}

#[test]
fn rand_matmul_full_factor_matches_exact() {
    // Columns of `a` and rows of `b` have equal norms, so every importance
    // weight is exactly one half and the inverse-probability rescaling is
    // exactly one: the full-factor estimate equals the exact product.
    let a = matrix(&[&[1., 2.], &[2., -1.]]);
    let b = matrix(&[&[3., 1.], &[1., -3.]]);
    let exact = a.matmul::<HwF32>(&b).unwrap();
    let est = a.rand_matmul::<HwF32>(&b, 1.0f32.to_bits()).unwrap();
    let e = cells_of(&exact);
    let g = cells_of(&est);
    for (x, y) in e.iter().zip(g.iter()) {
        assert!((x - y).abs() < 1e-5, "exact {x} vs estimate {y}");
    }

    let ones = Matrix::ones(3, 3);
    let exact = ones.matmul::<HwF32>(&ones).unwrap();
    let est = ones.rand_matmul::<HwF32>(&ones, 1.0f32.to_bits()).unwrap();
    for (x, y) in cells_of(&exact).iter().zip(cells_of(&est).iter()) {
        assert!((x - y).abs() < 1e-5, "exact {x} vs estimate {y}");
    }
}

fn mse(a: &Matrix, b: &Matrix) -> f64 {
    let xs = cells_of(a);
    let ys = cells_of(b);
    let mut acc = 0.0f64;
    for (x, y) in xs.iter().zip(ys.iter()) {
        let d = (*x as f64) - (*y as f64);
        acc += d * d;
    }
    acc / xs.len() as f64
}

#[test]
fn rand_matmul_error_shrinks_with_factor() {
    let a = matrix(&[&[1., 2.], &[2., -1.]]);
    let b = matrix(&[&[3., 1.], &[1., -3.]]);
    let exact = a.matmul::<HwF32>(&b).unwrap();
    let low = a.rand_matmul::<HwF32>(&b, 0.25f32.to_bits()).unwrap();
    let high = a.rand_matmul::<HwF32>(&b, 0.75f32.to_bits()).unwrap();
    let mse_low = mse(&exact, &low);
    let mse_high = mse(&exact, &high);
    assert!(mse_low.is_finite() && mse_low >= 0.0);
    assert!(mse_high.is_finite() && mse_high >= 0.0);
    assert!(mse_low >= mse_high, "mse {mse_low} at 0.25 vs {mse_high} at 0.75");
}

#[test]
fn rand_matmul_invalid_factor() {
    let a = Matrix::ones(2, 2);
    let b = Matrix::ones(2, 2);
    assert!(a.rand_matmul::<HwF32>(&b, 1.5f32.to_bits()) == Err(Error::InvalidFactor));
    assert!(a.rand_matmul::<HwF32>(&b, (-0.5f32).to_bits()) == Err(Error::InvalidFactor));
    assert!(a.rand_matmul::<HwF32>(&b, f32::NAN.to_bits()) == Err(Error::InvalidFactor));

    // A factor of negative zero is in range and keeps no term at all.
    let est = a.rand_matmul::<HwF32>(&b, (-0.0f32).to_bits()).unwrap();
    assert_eq!(cells_of(&est), vec![0.0; 4]);
}

#[test]
fn rand_matmul_skips_zero_weight_terms() {
    // The second column of `a` is zero, so its importance weight is zero:
    // the term must be excluded rather than rescaled by an infinite factor.
    let a = matrix(&[&[1., 0.], &[1., 0.]]);
    let b = matrix(&[&[1., 1.], &[1., 1.]]);
    let est = a.rand_matmul::<HwF32>(&b, 1.0f32.to_bits()).unwrap();
    for v in cells_of(&est) {
        assert!(v.is_finite());
    }
    assert_eq!(cells_of(&est), vec![0.5; 4]);
}
