use betterrgb::floodfill::count_free;
use betterrgb::rng::Rng;
use std::collections::VecDeque;

#[test]
fn flood_fill_counts_the_reachable_open_cells() {
    let mut body = VecDeque::new();
    body.push_back((2usize, 1usize));
    body.push_back((1, 1));
    body.push_back((0, 1));
    body.push_back((0, 2));
    // The body walls off the bottom row of a 3 x 3 board: only the top row,
    // head included, is reachable.
    assert_eq!(count_free(&body, 3, 3, (0, 2)), 3);
    let empty: VecDeque<(usize, usize)> = VecDeque::new();
    assert_eq!(count_free(&empty, 3, 4, (0, 0)), 12);
}

#[test]
fn generator_is_xorshift() {
    let mut r = Rng::new(0x1234_5677);
    assert_eq!(r.0, 0x1234_5677);
    let mut x: u32 = 0x1234_5677;
    x ^= x << 13;
    x ^= x >> 17;
    x ^= x << 5;
    assert_eq!(r.next(), x);
    assert_eq!(r.below(0), 0);
    let mut s = Rng::new(2);
    assert_eq!(s.0, 3);
    assert!(s.below(7) < 7);
}
