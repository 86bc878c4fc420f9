use wlmatrix::rng::Rng;

const SEED: u64 = 0x9E37_79B9_7F4A_7C15;

#[test]
fn the_first_states_are_these() {
    let mut rng = Rng(SEED);
    assert_eq!(rng.next_u64(), 0xdc1b_77ae_0bf3_4dad);
    assert_eq!(rng.next_u64(), 0x64f0_eeb9_026e_6076);
    assert_eq!(rng.next_u64(), 0x7b07_ce91_e590_6136);
    assert_eq!(rng.0, 0x7b07_ce91_e590_6136);
}

#[test]
fn below_is_the_remainder() {
    let mut rng = Rng(SEED);
    let drawn: Vec<u32> = (0..8).map(|_| rng.below(10)).collect();
    assert_eq!(drawn, vec![9, 4, 0, 0, 8, 5, 7, 0]);
}

#[test]
fn below_stays_below() {
    let mut rng = Rng(SEED);
    for n in 0..100u32 {
        let r = rng.below(n);
        assert!(r < n.max(1));
    }
}

#[test]
fn below_nothing_is_zero_and_takes_a_draw() {
    let mut rng = Rng(SEED);
    assert_eq!(rng.below(0), 0);
    assert_eq!(rng.0, 0xdc1b_77ae_0bf3_4dad);
}

#[test]
fn frac_is_the_top_of_the_state() {
    let mut rng = Rng(SEED);
    assert_eq!(rng.frac(), 14_424_951);
    assert_eq!(rng.frac(), 6_615_278);
    for _ in 0..1000 {
        assert!(rng.frac() < 1 << 24);
    }
}

#[test]
fn the_state_never_becomes_zero() {
    let mut rng = Rng(1);
    for _ in 0..10_000 {
        assert_ne!(rng.next_u64(), 0);
    }
    let mut stuck = Rng(0);
    assert_eq!(stuck.next_u64(), 0);
}

#[test]
fn different_states_have_different_successors() {
    let mut seen: Vec<u64> = (0..2000u64).map(|x| Rng(x * 0x1_0001).next_u64()).collect();
    seen.sort();
    seen.dedup();
    assert_eq!(seen.len(), 2000);
}
