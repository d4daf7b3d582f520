use dynstack::align_up;

// The smallest multiple of `a` that is at least `n`, computed the slow way.
fn slow_align_up(n: usize, a: usize) -> usize {
    let mut m = 0;
    while m < n {
        m += a;
    }
    m
}

#[test]
fn align_up_exhaustive_small_values() {
    for a in [1usize, 2, 4, 8, 16, 32] {
        for n in 0..65usize {
            let r = align_up(n, a);
            assert_eq!(r, slow_align_up(n, a));
            assert_eq!(r % a, 0);
            assert!(n <= r && r < n + a);
        }
    }
}

#[test]
fn align_up_concrete_by_four() {
    let got: Vec<usize> = (0..9).map(|x| align_up(x, 4)).collect();
    assert_eq!(got, vec![0, 4, 4, 4, 4, 8, 8, 8, 8]);
}

#[test]
fn align_up_large_values() {
    assert_eq!(align_up(usize::MAX - 63, 64), usize::MAX - 63);
    assert_eq!(align_up(usize::MAX - 64, 64), usize::MAX - 63);
    assert_eq!(align_up(0, 1), 0);
    assert_eq!(align_up(12345, 1), 12345);
}
