use rand::rngs::SmallRng;
use rand::SeedableRng;
use udp_hopper::ShufflingRand;

fn rng(seed: u64) -> SmallRng {
    SmallRng::seed_from_u64(seed)
}

#[test]
fn round_hands_out_each_port_once() {
    let mut r = ShufflingRand::new(1000, 1009, rng(7));
    let mut seen: Vec<u16> = (0..10).map(|_| r.next()).collect();
    seen.sort();
    assert_eq!(seen, (1000..=1009).collect::<Vec<u16>>());
}

#[test]
fn every_round_is_a_permutation() {
    let mut r = ShufflingRand::new(40000, 40030, rng(99));
    for _round in 0..5 {
        let mut seen: Vec<u16> = (0..31).map(|_| r.next()).collect();
        seen.sort();
        assert_eq!(seen, (40000..=40030).collect::<Vec<u16>>());
    }
}

#[test]
fn single_port_range_always_gives_that_port() {
    let mut r = ShufflingRand::new(5353, 5353, rng(1));
    for _ in 0..4 {
        assert_eq!(r.next(), 5353);
    }
}

#[test]
fn ports_stay_in_range() {
    let mut r = ShufflingRand::new(0, 2, rng(3));
    for _ in 0..30 {
        let p = r.next();
        assert!(p <= 2);
    }
}

#[test]
fn largest_accepted_range() {
    let mut r = ShufflingRand::new(1, 65535, rng(5));
    let p = r.next();
    assert!(p >= 1);
}

#[test]
fn full_port_range_round_is_a_permutation() {
    let mut r = ShufflingRand::new(0, 65535, rng(13));
    let mut seen = vec![false; 65536];
    for _ in 0..65536 {
        let p = r.next() as usize;
        assert!(!seen[p]);
        seen[p] = true;
    }
    assert!(seen.iter().all(|s| *s));
}
