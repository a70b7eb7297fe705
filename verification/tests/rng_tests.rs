use rand::RngCore;
use rand::SeedableRng;
use silver::rng::MainRng;

#[test]
fn rng_test() {
    let mut rng = MainRng::from_seed(0);
    let a = rng.next_u64();
    let b = rng.next_u64();
    rng.reseed(0);
    assert_eq!(rng.next_u64(), a);
    assert_eq!(rng.next_u64(), b);
}

#[test]
fn draw_is_reproducible() {
    let mut rng = MainRng::from_seed(42);
    let first = rng.draw(16);
    rng.reseed(42);
    let second = rng.draw(16);
    assert_eq!(first, second);

    let mut other = MainRng::from_seed(42);
    assert_eq!(other.draw(16), first);
}

#[test]
fn draw_matches_the_generator_it_wraps() {
    let mut rng = MainRng::from_seed(7);
    let mut reference = rand_pcg::Lcg128Xsl64::seed_from_u64(7);
    let drawn = rng.draw(8);
    for value in drawn {
        assert_eq!(value, reference.next_u64());
    }
}

#[test]
fn different_seeds_give_different_streams() {
    let mut a = MainRng::from_seed(1);
    let mut b = MainRng::from_seed(2);
    assert_ne!(a.draw(4), b.draw(4));
}

#[test]
fn reseed_discards_the_old_stream() {
    let mut rng = MainRng::from_seed(5);
    let head = rng.draw(3);
    rng.reseed(6);
    let _ = rng.draw(3);
    rng.reseed(5);
    assert_eq!(rng.draw(3), head);
}
