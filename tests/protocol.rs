use frodokexp::params::{N, N_BAR};
use frodokexp::{decaps, encaps, gen_a, gen_b, gen_pp, Matrix};

#[test]
fn correctness_test() {
    let nb_tests = 1;
    for _ in 0..nb_tests {
        let seed = gen_pp();
        let (b_a, (sk_a, f_a)) = gen_a(seed);
        let (b_b, (sk_b, _f_b)) = gen_b(seed);
        let (k, ct) = encaps(b_a, sk_b);
        let k_p = decaps(b_b, sk_a, f_a, ct);
        assert_eq!(k.to_vec(), k_p.to_vec());
    }
}

#[test]
fn keys_survive_the_wire_format() {
    let seed = gen_pp();
    let (b_a, (sk_a, f_a)) = gen_a(seed);
    let (b_b, (sk_b, _f_b)) = gen_b(seed);
    let b_a = Matrix::from_bytes(&b_a.to_bytes(), N_BAR, N).unwrap();
    let sk_b = Matrix::from_bytes(&sk_b.to_bytes(), N_BAR, N).unwrap();
    let b_b = Matrix::from_bytes(&b_b.to_bytes(), N_BAR, N).unwrap();
    let sk_a = Matrix::from_bytes(&sk_a.to_bytes(), N_BAR, N).unwrap();
    let f_a = Matrix::from_bytes(&f_a.to_bytes(), N_BAR, N_BAR).unwrap();
    let (k, ct) = encaps(b_a, sk_b);
    let k_p = decaps(b_b, sk_a, f_a, ct);
    assert_eq!(k.to_vec(), k_p.to_vec());
    assert!(k.iter().all(|&x| (0..16).contains(&x)));
}
