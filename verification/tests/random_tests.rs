use crellinor::random::RNG;

#[test]
fn stub_sequence() {
    let mut rng = RNG::new();
    rng.set_next_values(&[1, 2, 3]);
    assert_eq!(1, rng.next_u32(10));
    assert_eq!(2, rng.next_u32(10));
    assert_eq!(3, rng.next_u32(10));
}

#[test]
fn continues_when_stubbed_sequence_is_consumed() {
    let mut rng = RNG::new();
    rng.set_next_values(&[8]);
    assert_eq!(8, rng.next_u32(10));
    assert_eq!(true, rng.next_u32(10) < 10);
}

#[test]
fn same_seed_should_result_in_same_sequence() {
    let seed = &[1, 2, 3, 4];
    let mut rng0 = RNG::from_seed(seed);
    let mut rng1 = RNG::from_seed(seed);

    for _ in 0..100 {
        assert_eq!(rng0.next_u32(100_000), rng1.next_u32(100_000));
    }
}

#[test]
fn different_seed_should_result_in_different_sequence() {
    let mut rng0 = RNG::from_seed(&[1, 2, 3, 4]);
    let mut rng1 = RNG::from_seed(&[4, 3, 2, 1]);

    let mut found_difference = false;
    for _ in 0..100 {
        if rng0.next_u32(100_000) != rng1.next_u32(100_000) {
            found_difference = true;
            break;
        }
    }
    assert_eq!(true, found_difference);
}

#[test]
fn seed_is_kept() {
    let rng = RNG::from_seed(&[7, 8, 9, 10]);
    assert_eq!(&[7, 8, 9, 10], rng.seed());
}

#[test]
fn seed_words_are_taken_least_significant_byte_first() {
    // the first word that a generator with the state 1, 2, 3, 4 hands out is
    // 2061; over the whole range of 32 bits that makes the number 2060
    let mut rng = RNG::from_seed(&[1, 2, 3, 4]);
    assert_eq!(2060, rng.next_u32(u32::MAX));
}

#[test]
fn seed_of_zeros_is_replaced_by_a_preset_seed() {
    let mut zeros = RNG::from_seed(&[0, 0, 0, 0]);
    let mut preset = RNG::from_seed(&[0x0BAD_5EED, 0x0BAD_5EED, 0x0BAD_5EED, 0x0BAD_5EED]);
    assert_eq!(&[0, 0, 0, 0], zeros.seed());
    for _ in 0..20 {
        assert_eq!(preset.next_u32(1_000_000), zeros.next_u32(1_000_000));
    }
}

#[test]
fn draws_stay_below_the_ceiling() {
    let mut rng = RNG::new();
    for ceiling in [1u32, 2, 3, 10, 1000, u32::MAX] {
        for _ in 0..50 {
            assert!(rng.next_u32(ceiling) < ceiling);
            assert!(rng.pick_u32(ceiling) < ceiling);
            assert!(rng.next_usize(7) < 7);
        }
    }
}

#[test]
fn a_stubbed_value_just_below_the_ceiling_is_handed_out() {
    let mut rng = RNG::new();
    rng.set_next_values(&[2, 0]);
    assert_eq!(2, rng.next_u32(3));
    assert_eq!(0, rng.next_usize(1));
}

#[test]
fn pick_and_choose_leave_the_queue_alone() {
    let mut rng = RNG::new();
    rng.set_next_values(&[5, 6]);
    assert!(rng.pick_u32(4) < 4);
    let picked = rng.choose_one(&[10, 20, 30]);
    assert!(picked == 10 || picked == 20 || picked == 30);
    assert_eq!(5, rng.next_u32(10));
    assert_eq!(6, rng.next_usize(10));
}

#[test]
fn choose_one_of_one_value_takes_that_value() {
    let mut rng = RNG::new();
    assert_eq!(80_000, rng.choose_one(&[80_000]));
}

#[test]
fn set_next_values_replaces_the_queue() {
    let mut rng = RNG::new();
    rng.set_next_values(&[1, 2, 3]);
    assert_eq!(1, rng.next_u32(10));
    rng.set_next_values(&[9]);
    assert_eq!(9, rng.next_u32(10));
    assert!(rng.next_u32(5) < 5);
}

#[test]
fn same_seed_gives_same_choices() {
    let mut rng0 = RNG::from_seed(&[21, 22, 23, 24]);
    let mut rng1 = RNG::from_seed(&[21, 22, 23, 24]);
    let values = [0u16, 90, 180, 270];
    for _ in 0..100 {
        assert_eq!(rng0.choose_one(&values), rng1.choose_one(&values));
        assert_eq!(rng0.pick_u32(1_000_000), rng1.pick_u32(1_000_000));
    }
}
