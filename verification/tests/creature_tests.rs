use crellinor::creature::Creature;
use crellinor::creature::PContext;
use crellinor::log::Log;
use crellinor::params::Params;
use crellinor::program::Instr::{EAT, JMP, MOV, NOP, TUR};
use crellinor::random::RNG;
use crellinor::terrain::Terrain;

#[test]
fn age_when_not_processed_yet() {
    let mut c = Creature::new(vec![NOP], &Params::for_testing());
    c.bcycle = 512;
    assert_eq!(0, c.age())
}

#[test]
fn pc_stays_in_ring0() {
    let mut c = Creature::new(vec![NOP], &Params::for_testing());
    c.pc = 2;
    c.pc_incr();
    assert_eq!(0, c.pc)
}

#[test]
fn pc_stays_in_ring1() {
    let mut c = Creature::new(vec![NOP], &Params::for_testing());
    c.pc = 5;
    c.pc_incr();
    c.pc_incr();
    assert_eq!(4, c.pc)
}

#[test]
fn pc_moves_to_next_ring() {
    let mut c = Creature::new(vec![NOP, NOP, NOP, NOP, NOP, NOP, NOP, NOP, NOP], &Params::for_testing());
    c.pc = 4;
    c.pc_incr_ring();
    assert_eq!(6, c.pc)
}

#[test]
fn pc_wraps_to_first_ring() {
    let mut c = Creature::new(vec![NOP, NOP, NOP, NOP, NOP, NOP], &Params::for_testing());
    c.pc = 4;
    c.pc_incr_ring();
    assert_eq!(0, c.pc)
}

#[test]
fn new_creature_takes_its_shape_from_the_params() {
    let mut params = Params::for_testing();
    params.ring_size = 2;
    params.creature_start_ep = 77;
    let c = Creature::new(vec![MOV, EAT], &params);
    assert_eq!(vec![MOV, EAT], c.program);
    assert_eq!(2, c.rsize);
    assert_eq!(77, c.ep);
    assert_eq!(0, c.bearing);
    assert_eq!(0, c.pc);
    assert_eq!(0, c.cc);
    assert_eq!(0, c.bcycle);
    assert_eq!(0, c.lastprocd);
}

#[test]
fn age_is_the_time_between_birth_and_last_processing() {
    let mut c = Creature::new(vec![NOP, NOP, NOP], &Params::for_testing());
    c.bcycle = 512;
    c.lastprocd = 600;
    assert_eq!(88, c.age());
}

#[test]
fn pc_reset_goes_to_the_first_instruction() {
    let mut c = Creature::new(vec![NOP, NOP, NOP, NOP, NOP, NOP], &Params::for_testing());
    c.pc = 5;
    c.pc_reset();
    assert_eq!(0, c.pc);
}

#[test]
fn pc_walks_round_its_ring() {
    let mut c = Creature::new(vec![NOP, NOP, NOP, NOP, NOP, NOP], &Params::for_testing());
    c.pc = 3;
    c.pc_incr();
    assert_eq!(4, c.pc);
    c.pc_incr();
    assert_eq!(5, c.pc);
    c.pc_incr();
    assert_eq!(3, c.pc);
}

#[test]
fn equal_numbers_of_right_and_left_turns_cancel() {
    for start in [0u16, 90, 180, 270] {
        for n in 0..7 {
            let mut c = Creature::new(vec![NOP, NOP, NOP], &Params::for_testing());
            c.bearing = start;
            for _ in 0..n {
                c.add_to_bearing(90);
            }
            for _ in 0..n {
                c.add_to_bearing(270);
            }
            assert_eq!(start, c.bearing);
            for _ in 0..n {
                c.add_to_bearing(270);
            }
            for _ in 0..n {
                c.add_to_bearing(90);
            }
            assert_eq!(start, c.bearing);
        }
    }
}

#[test]
fn bearing_wraps_at_360() {
    let mut c = Creature::new(vec![NOP, NOP, NOP], &Params::for_testing());
    c.bearing = 270;
    c.add_to_bearing(90);
    assert_eq!(0, c.bearing);
    c.add_to_bearing(270);
    assert_eq!(270, c.bearing);
}

#[test]
fn current_instr_is_the_one_at_pc() {
    let mut c = Creature::new(vec![NOP, TUR, JMP], &Params::for_testing());
    c.pc = 2;
    assert_eq!(JMP, c.current_instr());
}

#[test]
fn pp_program_groups_the_instructions_by_ring() {
    let c = Creature::new(vec![NOP, TUR, JMP, MOV, EAT, NOP], &Params::for_testing());
    assert_eq!("NOP TUR JMP ; MOV EAT NOP ; ", c.pp_program());
}

#[test]
fn pp_program_of_an_unfinished_ring_has_no_semicolon() {
    let c = Creature::new(vec![MOV, EAT], &Params::for_testing());
    assert_eq!("MOV EAT ", c.pp_program());
}

fn params_for_mating() -> Params {
    let mut params = Params::for_testing();
    params.ring_size = 1;
    params.min_mating_ep = params.creature_start_ep;
    params.set_instr_cycles(MOV, 1);
    params
}

fn mature(program: Vec<crellinor::program::Instr>, params: &Params) -> Creature {
    let mut partner = Creature::new(program, params);
    partner.bcycle = 1;
    partner.lastprocd = 5001;
    partner
}

#[test]
fn a_mover_of_one_instruction_mates_with_a_partner_of_two() {
    let params = params_for_mating();
    let mut terrain = Terrain::with_size(10);
    terrain.set_creature_at(Some(mature(vec![NOP, NOP], &params)), (1, 0));
    let mut log = Log::new();
    let mut rng = RNG::new();
    let mut mover = Creature::new(vec![MOV], &params);
    mover.ep = 900;
    let mut ctx = PContext::new(&params, &mut log, &mut rng, &mut terrain, 5002, (1, 1));
    let pos = mover.do_cycle(&mut ctx);
    assert_eq!((1, 1), pos);
    assert_eq!(400, mover.ep);
    assert_eq!(vec![MOV], mover.program);
    assert_eq!(2, terrain.num_creatures());
    let child = terrain.creature_at((2, 1)).unwrap();
    assert_eq!(vec![MOV], child.program);
    assert_eq!(500, child.ep);
    assert_eq!(5002, child.bcycle);
    assert_eq!(0, child.lastprocd);
    assert_eq!(0, child.pc);
    assert_eq!(0, child.cc);
    assert!(child.bearing % 90 == 0 && child.bearing < 360);
}

#[test]
fn a_mover_with_just_the_required_energy_does_not_mate() {
    let params = params_for_mating();
    let mut terrain = Terrain::with_size(10);
    terrain.set_creature_at(Some(mature(vec![NOP, NOP], &params)), (1, 0));
    let mut log = Log::new();
    let mut rng = RNG::new();
    let mut mover = Creature::new(vec![MOV, NOP], &params);
    mover.ep = params.min_mating_ep;
    let mut ctx = PContext::new(&params, &mut log, &mut rng, &mut terrain, 5002, (1, 1));
    assert_eq!((1, 1), mover.do_cycle(&mut ctx));
    assert_eq!(500, mover.ep);
    assert_eq!(1, terrain.num_creatures());
}

#[test]
fn a_partner_of_just_the_required_age_is_not_mated() {
    let params = params_for_mating();
    let mut terrain = Terrain::with_size(10);
    let mut partner = Creature::new(vec![NOP, NOP], &params);
    partner.bcycle = 1;
    partner.lastprocd = 701;
    terrain.set_creature_at(Some(partner), (1, 0));
    let mut log = Log::new();
    let mut rng = RNG::new();
    let mut mover = Creature::new(vec![MOV, NOP], &params);
    mover.ep = 900;
    let mut ctx = PContext::new(&params, &mut log, &mut rng, &mut terrain, 5002, (1, 1));
    assert_eq!((1, 1), mover.do_cycle(&mut ctx));
    assert_eq!(900, mover.ep);
    assert_eq!(1, terrain.num_creatures());
}

#[test]
fn a_partner_one_cycle_past_the_required_age_is_mated() {
    let params = params_for_mating();
    let mut terrain = Terrain::with_size(10);
    let mut partner = Creature::new(vec![NOP, NOP], &params);
    partner.bcycle = 1;
    partner.lastprocd = 702;
    terrain.set_creature_at(Some(partner), (1, 0));
    let mut log = Log::new();
    let mut rng = RNG::new();
    let mut mover = Creature::new(vec![MOV, NOP], &params);
    mover.ep = 501;
    let mut ctx = PContext::new(&params, &mut log, &mut rng, &mut terrain, 5002, (1, 1));
    assert_eq!((1, 1), mover.do_cycle(&mut ctx));
    assert_eq!(1, mover.ep);
    assert_eq!(2, terrain.num_creatures());
    assert_eq!(2, terrain.creature_at((2, 1)).unwrap().program.len());
}

#[test]
fn a_starting_energy_above_the_mating_energy_is_a_valid_configuration() {
    let mut params = Params::for_testing();
    params.creature_start_ep = 4990;
    assert!(params.is_valid());
    assert!(!params.is_runnable());
    params.min_mating_ep = 4990;
    assert!(params.is_runnable());
}
