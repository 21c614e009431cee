use betterrgb::rng::Rng;

#[test]
fn generator_state_never_becomes_zero() {
    let mut r = Rng::new(0);
    assert_eq!(r.0, 1);
    for _ in 0..100_000 {
        assert_ne!(r.next(), 0);
    }
}

#[test]
fn first_step_matches_xorshift32() {
    let mut r = Rng::new(1);
    // 1 ^ (1 << 13) = 0x2001; ^ (>> 17) keeps it; ^ (<< 5) gives 0x42021.
    assert_eq!(r.next(), 0x0004_2021);
}

#[test]
fn below_stays_under_its_bound() {
    let mut r = Rng::new(12345);
    for n in 1..50usize {
        assert!(r.below(n) < n);
    }
    let before = r.0;
    assert_eq!(r.below(0), 0);
    assert_eq!(r.0, before);
}
