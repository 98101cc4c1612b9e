use crellinor::genetics::cut_n_splice_crossover;
use crellinor::genetics::mutation;
use crellinor::genetics::single_point_crossover;
use crellinor::params::Params;
use crellinor::program::Instr::{EAT, MOV, NOP, TUL, TUR};
use crellinor::random::RNG;

#[test]
fn single_point_crossover_with_p0_first() {
    let mut rng = RNG::new();
    rng.set_next_values(&[0, 2]);
    let p0 = vec![NOP, TUL, MOV];
    let p1 = vec![MOV, MOV, TUR];

    let pc = single_point_crossover(&p0, &p1, &mut rng);

    assert_eq!([NOP, TUL, TUR], pc.as_slice());
}

#[test]
fn single_point_crossover_with_p1_first() {
    let mut rng = RNG::new();
    rng.set_next_values(&[1, 1]);
    let p0 = vec![TUL, TUL];
    let p1 = vec![TUR, TUR];

    let pc = single_point_crossover(&p0, &p1, &mut rng);

    assert_eq!([TUR, TUL], pc.as_slice());
}

#[test]
fn cut_n_splice_crossover_with_move() {
    let mut rng = RNG::new();
    rng.set_next_values(&[2 /* len */, 1 /* source pos */, 2 /* dest pos */]);
    let p0 = vec![TUL, TUL, TUL, TUL, TUR];
    let p1 = vec![MOV, NOP, NOP, MOV, MOV];

    let pc = cut_n_splice_crossover(&p0, &p1, &mut rng);

    assert_eq!([TUL, TUL, NOP, NOP, TUR], pc.as_slice());
}

#[test]
fn mutation_at_point() {
    let mut rng = RNG::new();
    let params = Params::for_testing();
    rng.set_next_values(&[2 /* mpt */, 2 /* instr */]);
    let mut p = vec![MOV, EAT, NOP, NOP];

    mutation(&mut p, params.instr_list(), &mut rng);

    assert_eq!([MOV, EAT, TUL, NOP], p.as_slice());
}

#[test]
fn single_point_child_is_a_prefix_of_one_parent_and_a_suffix_of_the_other() {
    let p0 = vec![NOP, NOP, NOP, NOP, NOP, NOP];
    let p1 = vec![MOV, MOV, MOV, MOV, MOV, MOV];
    let mut rng = RNG::from_seed(&[11, 22, 33, 44]);
    for _ in 0..200 {
        let child = single_point_crossover(&p0, &p1, &mut rng);
        assert_eq!(6, child.len());
        let first = child[0];
        let split = child.iter().position(|i| *i != first).unwrap_or(6);
        assert!(child[..split].iter().all(|i| *i == first));
        assert!(child[split..].iter().all(|i| *i != first));
    }
}

#[test]
fn single_point_crossover_at_point_zero_copies_the_second_parent() {
    let mut rng = RNG::new();
    rng.set_next_values(&[0, 0]);
    let p0 = vec![NOP, TUL, MOV];
    let p1 = vec![MOV, MOV, TUR];
    assert_eq!(p1, single_point_crossover(&p0, &p1, &mut rng));
}

#[test]
fn cut_n_splice_child_has_the_length_of_the_first_parent() {
    let p0 = vec![NOP, NOP, NOP, NOP, NOP, NOP, NOP];
    let p1 = vec![MOV, MOV, MOV, MOV];
    let mut rng = RNG::from_seed(&[5, 6, 7, 8]);
    for _ in 0..200 {
        let child = cut_n_splice_crossover(&p0, &p1, &mut rng);
        assert_eq!(p0.len(), child.len());
        let copied = child.iter().filter(|i| **i == MOV).count();
        assert!(copied <= 2);
    }
}

#[test]
fn cut_n_splice_with_an_empty_window_copies_the_first_parent() {
    let mut rng = RNG::new();
    rng.set_next_values(&[0, 3, 4]);
    let p0 = vec![TUL, TUL, TUL, TUL, TUR];
    let p1 = vec![MOV, NOP, NOP, MOV, MOV];
    assert_eq!(p0, cut_n_splice_crossover(&p0, &p1, &mut rng));
}

#[test]
fn cut_n_splice_takes_the_draws_in_the_order_length_source_destination() {
    let mut rng = RNG::new();
    rng.set_next_values(&[3, 0, 1]);
    let p0 = vec![TUL, TUL, TUL, TUL, TUR];
    let p1 = vec![MOV, NOP, EAT, MOV, MOV];
    let pc = cut_n_splice_crossover(&p0, &p1, &mut rng);
    assert_eq!([TUL, MOV, NOP, EAT, TUR], pc.as_slice());
}

#[test]
fn mutation_changes_one_position_only() {
    let params = Params::for_testing();
    let mut rng = RNG::from_seed(&[9, 9, 9, 9]);
    for _ in 0..100 {
        let before = vec![MOV, EAT, NOP, NOP, TUR, TUL];
        let mut p = before.clone();
        mutation(&mut p, params.instr_list(), &mut rng);
        assert_eq!(before.len(), p.len());
        let changed = before.iter().zip(p.iter()).filter(|(a, b)| a != b).count();
        assert!(changed <= 1);
    }
}
