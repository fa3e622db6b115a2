use evolve_keyboard_layout::rng::SearchRng;

#[test]
fn first_draws_from_seed_zero() {
    let mut rng = SearchRng::seeded(0);
    assert_eq!(rng.next_u64(), 0xE220_A839_7B1D_CDAF);
    assert_eq!(rng.next_u64(), 0x6E78_9E6A_A1B9_65F4);
    assert_eq!(rng.next_u64(), 0x06C4_5D18_8009_454F);
}

#[test]
fn state_advances_by_the_increment() {
    let mut rng = SearchRng::seeded(10);
    rng.next_u64();
    assert_eq!(rng.state(), 10u64.wrapping_add(0x9E37_79B9_7F4A_7C15));
    let mut high = SearchRng::seeded(u64::MAX);
    high.next_u64();
    assert_eq!(high.state(), 0x9E37_79B9_7F4A_7C14);
}

#[test]
fn same_seed_same_draws() {
    let mut a = SearchRng::seeded(99);
    let mut b = SearchRng::seeded(99);
    for _ in 0..100 {
        assert_eq!(a.next_u64(), b.next_u64());
    }
    let mut c = SearchRng::seeded(a.state());
    assert_eq!(a.next_u64(), c.next_u64());
}

#[test]
fn below_is_the_draw_reduced() {
    let mut a = SearchRng::seeded(7);
    let mut b = SearchRng::seeded(7);
    for bound in 1..40usize {
        let drawn = a.below(bound);
        let wide = b.next_u64();
        assert!(drawn < bound);
        assert_eq!(drawn as u64, wide % bound as u64);
    }
    assert_eq!(a.below(1), 0);
}
