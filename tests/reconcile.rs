use frodokexp::poly::{abs_sub, help_rec, help_rec_dithered, rec_element};
use frodokexp::{key_to_bytes, Matrix, MatrixError};

#[test]
fn abs_sub_test() {
    let (r, _s) = abs_sub(5, 43);
    assert_eq!(r, 38);
}

#[test]
fn abs_sub_sign() {
    assert_eq!(abs_sub(5, 43), (38, -1));
    assert_eq!(abs_sub(43, 5), (38, 0));
    assert_eq!(abs_sub(7, 7), (0, 0));
}

#[test]
fn rec_element_keeps_value_with_matching_bit() {
    assert_eq!(rec_element(0, 0), 0);
    assert_eq!(rec_element(4096, 0), 1);
}

#[test]
fn rec_element_moves_to_nearest_consistent_point() {
    // 4096 starts a cell of bit 0; the nearest point of bit 1 is 4095.
    assert_eq!(rec_element(4096, 1), 1);
    // 100 lies in cell 0; the nearest point of bit 1 is -1, which wraps to 2Q - 1.
    assert_eq!(rec_element(100, 1), 0);
    // 2000 lies just below 2048, which starts a cell of bit 1.
    assert_eq!(rec_element(2000, 1), 1);
    // 65000 lies in the last cell; the nearest point of bit 0 is 2Q, across the wrap.
    assert_eq!(rec_element(65000, 0), 0);
}

#[test]
fn help_rec_dithered_exact() {
    let v = Matrix::new(8, 8, vec![1024; 64]).unwrap();
    let (key, ct) = help_rec_dithered(v.clone(), &vec![false; 128]).unwrap();
    assert_eq!(ct, u64::MAX);
    assert_eq!(key.to_vec(), vec![1; 64]);
    let mut coins = Vec::new();
    for _ in 0..64 {
        coins.push(true);
        coins.push(false);
    }
    let (key2, ct2) = help_rec_dithered(v, &coins).unwrap();
    assert_eq!(ct2, 0);
    assert_eq!(key2.to_vec(), vec![0; 64]);
}

#[test]
fn help_rec_rejects_wrong_size() {
    let v = Matrix::new(2, 2, vec![0; 4]).unwrap();
    assert_eq!(help_rec(v).err(), Some(MatrixError::ShapeMismatch));
    let w = Matrix::new(2, 2, vec![0; 4]).unwrap();
    assert_eq!(help_rec_dithered(w, &vec![false; 128]).err(), Some(MatrixError::ShapeMismatch));
}

#[test]
fn help_rec_key_matches_recovery() {
    let data: Vec<i32> = (0..64).map(|i| i * 500).collect();
    let v = Matrix::new(8, 8, data.clone()).unwrap();
    let (key, ct) = help_rec(v).unwrap();
    for i in 0..64 {
        let bit = ((ct >> i) & 1) as i32;
        assert_eq!(key[i], rec_element(2 * data[i], bit));
    }
}

#[test]
fn key_to_bytes_packs_nibbles() {
    let mut key = [0i32; 64];
    for i in 0..64 {
        key[i] = (i % 16) as i32;
    }
    let bytes = key_to_bytes(key);
    for i in 0..32 {
        assert_eq!(bytes[i] as usize, 17 * (i % 16));
    }
    let mut key2 = [0i32; 64];
    key2[0] = 0xA;
    key2[32] = 0x5;
    assert_eq!(key_to_bytes(key2)[0], 0xA5);
}

#[test]
fn dithered_bit_below_zero_takes_the_floor() {
    // Index 0: v = 0 with coins (1, 0) dithers to -1, whose cell lies below the
    // wrap-around and carries bit 1.
    let v = Matrix::new(8, 8, vec![0; 64]).unwrap();
    let mut coins = vec![false; 128];
    coins[0] = true;
    let (key, ct) = help_rec_dithered(v, &coins).unwrap();
    assert_eq!(ct, 1);
    assert_eq!(key.to_vec(), vec![0; 64]);
}
