use frodokexp::noise::{
    bounded_uniform_from_draws, chi_from_draws,
    gen_matrix_chi, gen_matrix_transpose_uniform_seed, gen_matrix_uniform_beta,
    gen_matrix_uniform_seed, gen_seed,
};
use frodokexp::params::{BETA, Q};

#[test]
fn same_seed_gen_same_mat_transpose_test() {
    let r = 3;
    let c = 11;
    let seed = gen_seed();
    let mat = gen_matrix_uniform_seed(r, c, seed);
    let mat_t = gen_matrix_transpose_uniform_seed(c, r, seed);
    println!("{:?}", mat);
    println!("{:?}", mat_t);
    for row in 0..r {
        for col in 0..c {
            assert_eq!(mat.get(row, col), mat_t.get(col, row));
        }
    }
}

#[test]
fn same_seed_gen_same_matrix_test() {
    let r = 1452;
    let c = 8;
    let seed = gen_seed();
    let mat1 = gen_matrix_uniform_seed(r, c, seed);
    let mat2 = gen_matrix_uniform_seed(r, c, seed);
    for row in 0..r {
        for col in 0..c {
            assert!(mat1.get(row, col) == mat2.get(row, col));
        }
    }
}

#[test]
fn gen_matrix_close_to_uniform_test() {
    let threshold: f64 = 500.0;
    let expectation: f64 = Q as f64 / 2.0;
    let r = 1452;
    let c = 8;
    let size = (r * c) as f64;
    let seed = gen_seed();
    let mat = gen_matrix_uniform_seed(r, c, seed);
    let mut acc = 0.0;
    for row in 0..r {
        for col in 0..c {
            let v = mat.get(row, col);
            acc += v as f64 / size;
        }
    }
    assert!(acc <= expectation + threshold && acc > expectation - threshold);
}

#[test]
fn gen_matrix_close_to_chi_test() {
    let r = 1452;
    let c = 8;
    let mat = gen_matrix_chi(r, c);
    let mut cnt = 0.0;
    for row in 0..r {
        for col in 0..c {
            if mat.get(row, col) == 1 {
                cnt += 1.0;
            }
        }
    }
    let ratio = cnt / ((r * c) as f64);
    assert!(ratio <= 0.6 && ratio > 0.4);
}

#[test]
fn gen_matrix_contains_correct_values_test() {
    let r = 1452;
    let c = 8;
    let mat = gen_matrix_chi(r, c);
    for row in 0..r {
        for col in 0..c {
            let v = mat.get(row, col);
            assert!(v == 1 || v == -1);
        }
    }
}

#[test]
fn seeded_matrix_depends_on_seed_and_stays_in_range() {
    let a = gen_matrix_uniform_seed(16, 16, [7u8; 32]);
    let b = gen_matrix_uniform_seed(16, 16, [7u8; 32]);
    let c = gen_matrix_uniform_seed(16, 16, [8u8; 32]);
    let da = a.get_data();
    assert_eq!(da, b.get_data());
    assert_ne!(da, c.get_data());
    assert!(da.iter().all(|&x| 0 <= x && x <= Q));
    assert!(da.iter().any(|&x| x != 0));
}

#[test]
fn transposed_seeded_matrix_on_fixed_seed() {
    let seed = [42u8; 32];
    let m = gen_matrix_uniform_seed(5, 7, seed);
    let t = gen_matrix_transpose_uniform_seed(7, 5, seed);
    for i in 0..5 {
        for j in 0..7 {
            assert_eq!(m.get(i, j), t.get(j, i));
        }
    }
}

#[test]
fn bounded_uniform_stays_in_bounds_and_varies() {
    let m = gen_matrix_uniform_beta(64, 64);
    let d = m.get_data();
    assert_eq!(d.len(), 64 * 64);
    assert!(d.iter().all(|&x| -BETA <= x && x <= BETA));
    assert!(d.iter().any(|&x| x != d[0]));
    assert!(d.iter().any(|&x| x < 0) && d.iter().any(|&x| x > 0));
}

#[test]
fn fresh_seeds_differ() {
    assert_ne!(gen_seed(), gen_seed());
}

#[test]
fn chi_from_draws_maps_parity() {
    let m = chi_from_draws(2, 2, &vec![0, 1, -3, 42]);
    assert_eq!(m.get_data(), vec![1, -1, -1, 1]);
}

#[test]
fn bounded_uniform_from_draws_centres_draws() {
    let m = bounded_uniform_from_draws(1, 3, &vec![0, BETA, 2 * BETA]);
    assert_eq!(m.get_data(), vec![-BETA, 0, BETA]);
}
