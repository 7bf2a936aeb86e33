use snake_engine::random::Prng;

#[test]
fn generator_yields_the_linear_congruential_sequence() {
    // state seeded as 0 * 2^16 + 95 = 95; each draw is the high half of
    // state * 1664525 + 1013904223 (mod 2^32)
    let mut prng = Prng::new(0, 95);
    assert_eq!(prng.get_u16(), 17883);
    assert_eq!(prng.get_u16(), 58682);
    assert_eq!(prng.get_u16(), 56807);
    assert_eq!(prng.get_u16(), 12086);
    assert_eq!(prng.get_u16(), 45768);
}

#[test]
fn seed_words_fill_high_and_low_halves() {
    let prng = Prng::new(0x1234, 0x5678);
    assert_eq!(prng.state, 0x1234_5678);
    let mut a = Prng::new(12345, 54321);
    assert_eq!(a.get_u16(), 29363);
    assert_eq!(a.get_u16(), 46966);
    assert_eq!(a.get_u16(), 9912);
}

#[test]
fn equal_seeds_give_equal_sequences() {
    let mut a = Prng::new(4242, 2424);
    let mut b = Prng::new(4242, 2424);
    for _ in 0..100 {
        assert_eq!(a.get_u16(), b.get_u16());
        assert_eq!(a.state, b.state);
    }
}

#[test]
fn seed_words_take_low_seconds_and_low_nanoseconds() {
    assert_eq!(
        snake_engine::random::seed_from_words(1_700_000_123, 987_654_321),
        (61819, 26801)
    );
    assert_eq!(
        snake_engine::random::seed_from_words(u64::MAX, 999_999_999),
        (65535, 51711)
    );
    assert_eq!(snake_engine::random::seed_from_words(0, 0), (0, 0));
    assert_eq!(snake_engine::random::seed_from_words(7, 65536), (7, 0));
    assert_eq!(
        snake_engine::random::seed_from_words(0x1_0000, 0xFFFF),
        (0, 65535)
    );
}
