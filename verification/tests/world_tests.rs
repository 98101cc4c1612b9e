use crellinor::creature::Creature;
use crellinor::growth::plant_growth_prob;
use crellinor::log::Log;
use crellinor::multiverse::claim;
use crellinor::multiverse::make_world;
use crellinor::multiverse::ratio_in_millionths;
use crellinor::multiverse::Claim;
use crellinor::multiverse::NUM_SIMS;
use crellinor::params::Params;
use crellinor::plant::Plant;
use crellinor::program::Instr::{BFA, BFH, EAT, JMP, JMZ, MOV, NOP, TUL, TUR};
use crellinor::random::RNG;
use crellinor::run;
use crellinor::terrain::Terrain;
use crellinor::utils::square;
use crellinor::world::Processor;
use crellinor::world::World;
use crellinor::RunMode;

#[test]
fn run_all_programs() {
    let mut w = World::for_testing();
    w.params.set_instr_cycles(TUR, 2);
    w.params.set_instr_cycles(MOV, 2);
    w.params.creature_max_age = 5;
    let mut c1 = Creature::new(vec![TUR, TUR, TUR], &w.params);
    c1.ep = 100;
    w.add_creature(c1, (1, 1));
    w.do_cycles(2);
    let mut c2 = Creature::new(vec![TUR, TUR, TUR], &w.params);
    c2.ep = 100;
    c2.bcycle = w.cycle;
    w.add_creature(c2, (2, 2));
    let mut c3 = Creature::new(vec![TUR, MOV, MOV], &w.params);
    c3.ep = 100;
    c3.bcycle = w.cycle;
    w.add_creature(c3, (3, 3));
    w.do_cycles(2);
    assert_eq!(180, w.creature_at((1, 1)).unwrap().bearing);
    assert_eq!(90, w.creature_at((2, 2)).unwrap().bearing);
    assert_eq!(90, w.creature_at((3, 3)).unwrap().bearing);
    w.do_cycles(2);
    assert_eq!(false, w.creature_at((1, 1)).is_some());
    assert_eq!(180, w.creature_at((2, 2)).unwrap().bearing);
    assert_eq!(90, w.creature_at((4, 3)).unwrap().bearing);
}

#[test]
fn plant_reduction() {
    let mut w = World::for_testing();
    w.params.plant_prob = 200_000;
    w.params.plant_prob_end = 100_000;
    w.params.world_end = 2_000_000;

    assert_eq!(w.plant_prob(), 200_000);
    w.cycle = 500_000;
    assert_eq!(w.plant_prob(), 150_000);
    w.cycle = 1_000_000;
    assert_eq!(w.plant_prob(), 100_000);
}

#[test]
fn plant_probability_follows_a_smooth_step() {
    let mut params = Params::new();
    params.plant_prob = 200_000;
    params.plant_prob_end = 100_000;
    params.world_end = 2_000_000;
    // an eighth of the run is a quarter of the decline: 3/16 - 2/64 = 5/32
    assert_eq!(200_000 - 15_625, plant_growth_prob(&params, 250_000));
    // three eighths of the run are three quarters of the decline: 27/32
    assert_eq!(200_000 - 84_375, plant_growth_prob(&params, 750_000));
    assert_eq!(100_000, plant_growth_prob(&params, 2_000_000));
    assert_eq!(100_000, plant_growth_prob(&params, u64::MAX));
}

#[test]
fn plant_probability_never_moves_away_from_its_final_value() {
    let mut params = Params::new();
    params.world_end = 10_000;
    for (start, end) in [(250_000u32, 10_000u32), (10_000, 250_000), (1_000_000, 0), (7, 7)] {
        params.plant_prob = start;
        params.plant_prob_end = end;
        let mut last = plant_growth_prob(&params, 0);
        assert_eq!(start, last);
        for cycle in 1..=10_000u64 {
            let p = plant_growth_prob(&params, cycle);
            if start >= end {
                assert!(end <= p && p <= last);
            } else {
                assert!(last <= p && p <= end);
            }
            last = p;
        }
        assert_eq!(end, last);
    }
}

#[test]
fn plant_probability_of_a_run_without_cycles_is_the_final_one() {
    let mut params = Params::new();
    params.plant_prob = 200_000;
    params.plant_prob_end = 100_000;
    params.world_end = 0;
    assert_eq!(100_000, plant_growth_prob(&params, 0));
}

#[test]
fn default_params() {
    let p = Params::new();
    assert_eq!(3_000_000, p.world_end);
    assert_eq!(100_000, p.log_interval);
    assert_eq!(150, p.world_size);
    assert_eq!(500, p.start_pop_size);
    assert_eq!(3000, p.start_plant_count);
    assert_eq!(1000, p.plant_start_ep);
    assert_eq!(250_000, p.plant_prob);
    assert_eq!(250_000, p.plant_prob_end);
    assert_eq!(50_000, p.creature_max_age);
    assert_eq!(500, p.creature_start_ep);
    assert_eq!(5000, p.creature_max_ep);
    assert_eq!(200, p.eat_ep);
    assert_eq!(4000, p.min_mating_ep);
    assert_eq!(4, p.view_distance);
    assert_eq!(2, p.ring_count);
    assert_eq!(3, p.ring_size);
    assert_eq!(10, p.instr_cycles(&EAT));
    assert_eq!(5, p.instr_cycles(&MOV));
    assert_eq!(3, p.instr_cycles(&TUR));
    assert_eq!(3, p.instr_cycles(&TUL));
    for instr in [NOP, JMP, JMZ, BFH, BFA] {
        assert_eq!(1, p.instr_cycles(&instr));
    }
    let t = Params::for_testing();
    assert_eq!(3, t.ring_size);
    assert_eq!(2, t.ring_count);
    assert_eq!(p.instructions, t.instructions);
}

#[test]
fn instr_list_holds_the_instructions_in_use_in_order() {
    let mut p = Params::new();
    assert_eq!(vec![&NOP, &TUR, &TUL, &MOV, &EAT, &JMP, &JMZ, &BFH, &BFA], p.instr_list());
    p.instructions = [None; 9];
    assert_eq!(0, p.instr_list().len());
    p.set_instr_cycles(JMP, 4);
    p.set_instr_cycles(TUR, 2);
    assert_eq!(vec![&TUR, &JMP], p.instr_list());
    assert_eq!(4, p.instr_cycles(&JMP));
}

#[test]
fn new_world_is_empty_and_named() {
    let w = World::new("eden", Params::new());
    assert_eq!(Some("eden".to_string()), w.name);
    assert_eq!(0, w.cycle);
    assert_eq!(0, w.num_creatures());
    assert_eq!(0, w.log.entries.len());
    assert_eq!(150, w.terrain.size());
    assert!(World::for_testing().name.is_none());
}

#[test]
fn a_world_with_one_creature_has_not_ended_well() {
    let mut w = World::for_testing();
    assert!(!w.ended_ok());
    w.add_creature(Creature::new(vec![NOP, NOP, NOP], &w.params), (0, 0));
    assert!(!w.ended_ok());
    w.add_creature(Creature::new(vec![NOP, NOP, NOP], &w.params), (1, 0));
    assert!(w.ended_ok());
}

#[test]
fn add_plant_gives_the_plant_the_starting_energy() {
    let mut w = World::for_testing();
    w.add_plant(Plant::with_ep(3), (5, 6));
    assert_eq!(w.params.plant_start_ep, w.plant_at((5, 6)).unwrap().ep);
}

#[test]
fn one_cycle_moves_the_clock_by_one() {
    let mut w = World::for_testing();
    w.do_one_cycle();
    assert_eq!(1, w.cycle);
    w.do_cycles(0);
    assert_eq!(1, w.cycle);
    w.do_cycles(5);
    assert_eq!(6, w.cycle);
}

#[test]
fn creature_stays_until_its_energy_is_used_up() {
    let mut w = World::for_testing();
    let mut c = Creature::new(vec![NOP, NOP, NOP, NOP, NOP, NOP], &w.params);
    c.ep = 3;
    w.add_creature(c, (4, 4));
    w.do_cycles(2);
    assert_eq!(1, w.creature_at((4, 4)).unwrap().ep);
    assert_eq!(1, w.num_creatures());
    w.do_cycles(1);
    assert!(w.creature_at((4, 4)).is_none());
    assert_eq!(0, w.num_creatures());
}

#[test]
fn eating_from_a_small_plant_takes_all_of_it() {
    let mut w = World::for_testing();
    w.params.set_instr_cycles(EAT, 1);
    w.add_creature(Creature::new(vec![EAT, NOP, NOP], &w.params), (0, 0));
    w.terrain.set_plant_at(Some(Plant::with_ep(199)), (0, 0));
    w.do_cycles(1);
    assert_eq!(500 - 1 + 199, w.creature_at((0, 0)).unwrap().ep);
    assert!(w.plant_at((0, 0)).is_none());
}

#[test]
fn eating_all_of_a_plant_of_the_exact_size_leaves_an_empty_plant() {
    let mut w = World::for_testing();
    w.params.set_instr_cycles(EAT, 1);
    w.add_creature(Creature::new(vec![EAT, NOP, NOP], &w.params), (0, 0));
    w.terrain.set_plant_at(Some(Plant::with_ep(200)), (0, 0));
    w.do_cycles(1);
    assert_eq!(500 - 1 + 200, w.creature_at((0, 0)).unwrap().ep);
    assert_eq!(0, w.plant_at((0, 0)).unwrap().ep);
}

#[test]
fn executed_instructions_are_counted_in_the_log() {
    let mut w = World::for_testing();
    w.log.add_entry(0);
    w.add_creature(Creature::new(vec![NOP, TUR, NOP], &w.params), (0, 0));
    w.add_creature(Creature::new(vec![NOP, NOP, NOP], &w.params), (5, 5));
    w.do_cycles(4);
    let entry = &w.log.entries[0];
    assert_eq!(5, entry.instr_count[NOP.index()]);
    assert_eq!(1, entry.instr_count[TUR.index()]);
    assert_eq!(0, entry.instr_count[MOV.index()]);
    assert_eq!(8, w.log.total_cycles);
}

#[test]
fn no_offspring_without_a_free_neighbour() {
    let mut w = World::for_testing();
    w.params.min_mating_ep = w.params.creature_start_ep;
    w.params.set_instr_cycles(MOV, 1);
    w.cycle = 5000;
    w.add_creature(Creature::new(vec![MOV, NOP, NOP], &w.params), (1, 1));
    for pos in [(1, 0), (2, 1), (1, 2), (0, 1)] {
        let mut other = Creature::new(vec![NOP, NOP, NOP], &w.params);
        other.bcycle = 1;
        other.ep = 4000;
        w.add_creature(other, pos);
    }
    let mut parent = Creature::new(vec![MOV, NOP, NOP], &w.params);
    parent.ep = 4500;
    w.add_creature(parent, (1, 1));
    w.do_cycles(1);
    assert_eq!(5, w.num_creatures());
    assert_eq!(4499, w.creature_at((1, 1)).unwrap().ep);
}

#[test]
fn seeding_sets_the_clock_and_fills_the_world() {
    let mut w = World::for_testing();
    w.params.start_pop_size = 40;
    w.params.start_plant_count = 60;
    w.add_initial_plants_and_creatures();
    assert_eq!(10_000, w.cycle);
    let n = w.num_creatures();
    assert!(0 < n && n <= 40);
    let plants = w.terrain.all_plants_with_pos();
    assert!(0 < plants.len() && plants.len() <= 60);
    assert!(plants.iter().all(|(_, p)| p.ep == 1000));
    for c in w.terrain.all_creatures() {
        assert_eq!(6, c.program.len());
        assert_eq!(3, c.rsize);
        assert!(c.program[0] == MOV || c.program[0] == EAT);
        assert!(c.program[1] != c.program[0] && c.program[2] == c.program[0]);
        assert!(c.bcycle < 10_000);
        assert!([0, 90, 180, 270].contains(&c.bearing));
        assert_eq!(500, c.ep);
        assert_eq!(0, c.pc);
    }
}

#[test]
fn run_ends_when_the_last_cycle_has_come() {
    let mut w = World::for_testing();
    w.params.world_end = 10_050;
    w.params.log_interval = 20;
    w.params.start_pop_size = 30;
    w.params.start_plant_count = 30;
    w.run();
    assert_eq!(10_060, w.cycle);
    assert_eq!(4, w.log.entries.len());
    let cycles: Vec<u64> = w.log.entries.iter().map(|e| e.cycle).collect();
    assert_eq!(vec![10_000, 10_020, 10_040, 10_060], cycles);
    assert!(w.log.entries.iter().all(|e| e.num_creatures.is_some()));
    assert!(w.log.entries[2].programs.is_none());
    let last = &w.log.entries[3];
    assert_eq!(Some(w.num_creatures()), last.num_creatures);
    let hist = last.programs.as_ref().unwrap();
    assert_eq!(Some(hist.names.len() as u32), last.num_programs);
    assert_eq!(hist.names.len(), hist.counts.len());
    let adults = w.terrain.all_creatures().iter().filter(|c| c.age() > 700).count();
    assert_eq!(adults as u32, hist.counts.iter().sum::<u32>());
}

#[test]
fn run_ends_when_the_world_is_deserted() {
    let mut w = World::for_testing();
    w.params.log_interval = 10;
    let mut c = Creature::new(vec![NOP, NOP, NOP, NOP, NOP, NOP], &w.params);
    c.ep = 1000;
    w.add_creature(c, (0, 0));
    w.do_cycles_until_end();
    assert_eq!(0, w.cycle);
    assert_eq!(1, w.log.entries.len());
    assert_eq!(Some(1), w.log.entries[0].num_creatures);
}

#[test]
fn visitor_is_called_once_for_each_creature_of_the_start() {
    let mut w = World::for_testing();
    let mut old = Creature::new(vec![NOP, NOP, NOP], &w.params);
    old.ep = 1;
    w.add_creature(old, (0, 0));
    w.add_creature(Creature::new(vec![NOP, NOP, NOP], &w.params), (1, 0));
    w.add_creature(Creature::new(vec![NOP, NOP, NOP], &w.params), (2, 0));
    let mut processor =
        Processor { params: w.params, log: Log::new(), random: RNG::new(), cycle: 1 };
    w.terrain.do_with_creatures_mut(&mut processor);
    assert_eq!(2, processor.log.total_cycles);
    assert_eq!(2, w.num_creatures());
    assert!(w.creature_at((0, 0)).is_none());
    assert_eq!(499, w.creature_at((1, 0)).unwrap().ep);
    assert_eq!(499, w.creature_at((2, 0)).unwrap().ep);
    assert_eq!(1, w.creature_at((2, 0)).unwrap().lastprocd);
}

#[test]
fn walk_moves_a_creature_and_keeps_its_place_in_the_list() {
    let params = Params::for_testing();
    let mut terrain = Terrain::with_size(10);
    let mut creature = Creature::new(vec![MOV, NOP, NOP], &params);
    creature.cc = 1;
    creature.bearing = 90;
    terrain.set_creature_at(Some(creature), (9, 4));
    terrain.set_creature_at(Some(Creature::new(vec![NOP, NOP, NOP], &params)), (5, 5));
    let mut processor = Processor { params, log: Log::new(), random: RNG::new(), cycle: 3 };
    processor.log.add_entry(0);

    terrain.do_with_creatures_mut(&mut processor);

    assert!(terrain.creature_at((9, 4)).is_none());
    let moved = terrain.creature_at((0, 4)).unwrap();
    assert_eq!(1, moved.pc);
    assert_eq!(0, moved.cc);
    assert_eq!(3, moved.lastprocd);
    assert_eq!(1, processor.log.entries[0].instr_count[MOV.index()]);
    assert_eq!(1, processor.log.entries[0].instr_count[NOP.index()]);
    assert_eq!(&vec![4 * 10, 5 * 10 + 5], terrain.occupied());
}

#[test]
fn walk_drops_a_creature_and_fills_its_place_from_the_end() {
    let params = Params::for_testing();
    let mut terrain = Terrain::with_size(10);
    for (x, ep) in [(0u32, 1u32), (1, 7), (2, 1), (3, 7)] {
        let mut c = Creature::new(vec![NOP, NOP, NOP], &params);
        c.ep = ep;
        terrain.set_creature_at(Some(c), (x, 0));
    }
    let mut processor = Processor { params, log: Log::new(), random: RNG::new(), cycle: 1 };

    terrain.do_with_creatures_mut(&mut processor);

    assert_eq!(&vec![3, 1], terrain.occupied());
    assert_eq!(2, processor.log.total_cycles);
    assert_eq!(6, terrain.creature_at((1, 0)).unwrap().ep);
    assert_eq!(6, terrain.creature_at((3, 0)).unwrap().ep);
    assert!(terrain.creature_at((0, 0)).is_none());
    assert!(terrain.creature_at((2, 0)).is_none());
}

#[test]
fn a_blocked_creature_that_cannot_mate_stays_where_it_is() {
    let params = Params::for_testing();
    let mut terrain = Terrain::with_size(10);
    let mut creature = Creature::new(vec![MOV, NOP, NOP], &params);
    creature.cc = 1;
    creature.bearing = 180;
    terrain.set_creature_at(Some(creature), (3, 2));
    let mut other = Creature::new(vec![NOP, NOP, NOP], &params);
    other.cc = 5;
    terrain.set_creature_at(Some(other), (3, 3));
    let mut processor = Processor { params, log: Log::new(), random: RNG::new(), cycle: 9 };

    terrain.do_with_creatures_mut(&mut processor);

    assert_eq!(2, terrain.num_creatures());
    assert_eq!(1, terrain.creature_at((3, 2)).unwrap().pc);
    assert_eq!(499, terrain.creature_at((3, 2)).unwrap().ep);
    assert_eq!(4, terrain.creature_at((3, 3)).unwrap().cc);
}

#[test]
fn multiverse_world_is_configured_for_its_size() {
    let w = make_world();
    assert_eq!(Some("ringstruct".to_string()), w.name);
    let p = &w.params;
    assert_eq!(2_000_000, p.world_end);
    assert_eq!(10_000, p.log_interval);
    assert_eq!(300, p.world_size);
    assert_eq!(1125, p.start_pop_size);
    assert_eq!(6000, p.start_plant_count);
    assert_eq!(3200, p.plant_start_ep);
    assert_eq!(281_000, p.plant_prob);
    assert_eq!(140_500, p.plant_prob_end);
    assert_eq!(80_000, p.creature_max_age);
    assert_eq!(2000, p.creature_start_ep);
    assert_eq!(4000, p.creature_max_ep);
    assert_eq!(800, p.eat_ep);
    assert_eq!(3000, p.min_mating_ep);
    assert_eq!(6, p.view_distance);
    assert!(p.ring_count == 2 || p.ring_count == 3);
    assert!(3 <= p.ring_size && p.ring_size <= 6);
    assert_eq!(25, p.instr_cycles(&EAT));
    assert_eq!(15, p.instr_cycles(&MOV));
    assert_eq!(3, p.instr_cycles(&TUR));
    assert_eq!(1, p.instr_cycles(&BFA));
    assert_eq!(300, w.terrain.size());
}

#[test]
fn ratio_is_rounded_to_thousandths() {
    assert_eq!(281_000, ratio_in_millionths(900, 3200));
    assert_eq!(1_000, ratio_in_millionths(1, 2000));
    assert_eq!(0, ratio_in_millionths(1, 2001));
    assert_eq!(2_500_000, ratio_in_millionths(5, 2));
    assert_eq!(333_000, ratio_in_millionths(1, 3));
    assert_eq!(667_000, ratio_in_millionths(2, 3));
}

#[test]
fn numbers_below_the_number_of_runs_stand_for_a_run() {
    assert_eq!(Claim::Run(0), claim(0));
    assert_eq!(Claim::Run(NUM_SIMS - 1), claim(NUM_SIMS - 1));
    assert_eq!(Claim::Done, claim(NUM_SIMS));
    assert_eq!(Claim::Done, claim(u32::MAX));
    let mut seen = vec![false; NUM_SIMS as usize];
    let mut counter = 0u32;
    loop {
        match claim(counter) {
            Claim::Run(n) => {
                assert!(!seen[n as usize]);
                seen[n as usize] = true;
            }
            Claim::Done => break,
        }
        counter += 1;
    }
    assert!(seen.iter().all(|s| *s));
}

#[test]
fn run_chooses_the_mode() {
    assert!(matches!(run(None, false), RunMode::Multiverse));
    assert!(matches!(run(None, true), RunMode::Multiverse));
    assert!(matches!(run(Some("w.json".to_string()), false), RunMode::Single(f) if f == "w.json"));
    assert!(matches!(run(Some("w.json".to_string()), true), RunMode::Web(f) if f == "w.json"));
}

#[test]
fn square_multiplies_a_number_with_itself() {
    assert_eq!(90_000, square(300u32));
    assert_eq!(49, square(-7i64));
    assert_eq!(0, square(0u8));
}

#[test]
fn worlds_do_not_share_anything() {
    let mut a = World::for_testing();
    let mut b = World::for_testing();
    a.add_creature(Creature::new(vec![NOP, NOP, NOP], &a.params), (1, 1));
    a.add_plant(Plant::new(), (2, 2));
    a.do_cycles(3);
    assert_eq!(0, b.num_creatures());
    assert!(b.plant_at((2, 2)).is_none());
    assert_eq!(0, b.cycle);
    b.do_cycles(1);
    assert_eq!(3, a.cycle);
    assert_eq!(1, a.num_creatures());
}

fn world_of_single_instructions() -> World {
    let mut w = World::for_testing();
    w.params.ring_size = 1;
    w.params.plant_prob = 0;
    w.params.plant_prob_end = 0;
    w
}

#[test]
fn a_program_of_one_move_relocates_after_the_cycles_of_a_move() {
    let mut w = world_of_single_instructions();
    w.add_creature(Creature::new(vec![MOV], &w.params), (1, 2));
    w.do_cycles(4);
    assert!(w.creature_at((1, 1)).is_none());
    let waiting = w.creature_at((1, 2)).unwrap();
    assert_eq!(0, waiting.pc);
    assert_eq!(1, waiting.cc);
    w.do_cycles(1);
    assert!(w.creature_at((1, 2)).is_none());
    assert!(w.creature_at((1, 1)).is_some());
    assert_eq!(1, w.num_creatures());
    assert_eq!(0, w.creature_at((1, 1)).unwrap().pc);
}

#[test]
fn a_program_of_one_move_goes_east_when_it_faces_east() {
    let mut w = world_of_single_instructions();
    let mut c = Creature::new(vec![MOV], &w.params);
    c.bearing = 90;
    w.add_creature(c, (149, 2));
    w.do_cycles(5);
    assert!(w.creature_at((0, 2)).is_some());
}

#[test]
fn a_program_of_one_instruction_leaves_when_its_energy_is_used_up() {
    let mut w = world_of_single_instructions();
    w.params.creature_start_ep = 1;
    w.add_creature(Creature::new(vec![NOP], &w.params), (0, 0));
    w.do_cycles(2);
    assert!(w.creature_at((0, 0)).is_none());
    assert_eq!(0, w.num_creatures());
}

#[test]
fn a_program_of_one_eat_takes_a_meal_from_a_large_plant() {
    let mut w = world_of_single_instructions();
    w.add_creature(Creature::new(vec![EAT], &w.params), (0, 0));
    w.add_plant(Plant::new(), (0, 0));
    w.do_cycles(10);
    assert_eq!(690, w.creature_at((0, 0)).unwrap().ep);
    assert_eq!(800, w.plant_at((0, 0)).unwrap().ep);
}

#[test]
fn a_program_of_one_eat_eats_up_a_small_plant() {
    let mut w = world_of_single_instructions();
    w.params.plant_start_ep = 12;
    w.add_creature(Creature::new(vec![EAT], &w.params), (0, 0));
    w.add_plant(Plant::new(), (0, 0));
    w.do_cycles(10);
    assert_eq!(502, w.creature_at((0, 0)).unwrap().ep);
    assert!(w.plant_at((0, 0)).is_none());
}

#[test]
fn a_program_of_one_eat_stops_at_the_greatest_energy() {
    let mut w = world_of_single_instructions();
    w.params.creature_start_ep = 4990;
    w.add_creature(Creature::new(vec![EAT], &w.params), (0, 0));
    w.add_plant(Plant::new(), (0, 0));
    w.do_cycles(10);
    assert_eq!(5000, w.creature_at((0, 0)).unwrap().ep);
    assert_eq!(980, w.plant_at((0, 0)).unwrap().ep);
}

fn world_for_mating() -> World {
    let mut w = world_of_single_instructions();
    w.params.min_mating_ep = w.params.creature_start_ep;
    w.params.set_instr_cycles(MOV, 1);
    w.cycle = 5000;
    w
}

#[test]
fn two_creatures_of_two_instructions_mate() {
    let mut w = world_for_mating();
    let mut mover = Creature::new(vec![MOV, NOP], &w.params);
    mover.ep = 900;
    w.add_creature(mover, (1, 1));
    let mut partner = Creature::new(vec![NOP, NOP], &w.params);
    partner.bcycle = 1;
    w.add_creature(partner, (1, 0));
    // in the first cycle the partner has not been processed yet
    w.do_cycles(1);
    assert_eq!(2, w.num_creatures());
    w.do_cycles(1);
    assert_eq!(3, w.num_creatures());
    let child = w.creature_at((2, 1)).unwrap();
    assert_eq!(2, child.program.len());
    assert_eq!(5002, child.bcycle);
    assert_eq!(500, child.ep);
    assert_eq!(398, w.creature_at((1, 1)).unwrap().ep);
    assert_eq!(498, w.creature_at((1, 0)).unwrap().ep);
}

#[test]
fn a_partner_with_a_program_one_longer_is_eligible() {
    let mut w = world_for_mating();
    let mut mover = Creature::new(vec![MOV, NOP], &w.params);
    mover.ep = 900;
    w.add_creature(mover, (1, 1));
    let mut partner = Creature::new(vec![NOP, NOP, NOP], &w.params);
    partner.bcycle = 1;
    w.add_creature(partner, (1, 0));
    w.do_cycles(2);
    assert_eq!(3, w.num_creatures());
    assert_eq!(398, w.creature_at((1, 1)).unwrap().ep);
    assert_eq!(2, w.creature_at((2, 1)).unwrap().program.len());
}

#[test]
fn queued_values_answer_the_draws_of_a_crossover_in_a_world() {
    let mut w = world_for_mating();
    let mut mover = Creature::new(vec![MOV, EAT, MOV, EAT, MOV, EAT], &w.params);
    mover.ep = 900;
    w.add_creature(mover, (1, 1));
    let mut partner = Creature::new(vec![NOP, TUR, TUL, JMP, JMZ, BFH], &w.params);
    partner.bcycle = 1;
    w.add_creature(partner, (1, 0));
    // a window of two instructions, taken at 1 and put down at 2
    w.random.set_next_values(&[2, 1, 2]);
    w.do_cycles(2);
    assert_eq!(3, w.num_creatures());
    assert_eq!(vec![MOV, EAT, TUR, TUL, MOV, EAT], w.creature_at((2, 1)).unwrap().program);
}

#[test]
fn a_queued_position_is_where_the_plant_grows() {
    let mut w = World::for_testing();
    w.params.plant_prob = 1_000_000;
    w.params.plant_prob_end = 1_000_000;
    w.random.set_next_values(&[3, 8]);
    w.do_one_cycle();
    assert_eq!(1000, w.plant_at((3, 8)).unwrap().ep);
    assert_eq!(1, w.terrain.all_plants_with_pos().len());
}

#[test]
fn queued_values_decide_the_first_creature_of_the_seeding() {
    let mut w = World::for_testing();
    w.params.start_pop_size = 1;
    w.params.start_plant_count = 0;
    w.random.set_next_values(&[1, 0, 1, 0, 1, 1, 0]);
    w.add_initial_plants_and_creatures();
    assert_eq!(1, w.num_creatures());
    let c = w.creature_at((1, 0)).unwrap();
    assert_eq!(vec![MOV, EAT, MOV, NOP, TUR, NOP], c.program);
    assert_eq!(1, c.bcycle);
    assert_eq!(3, c.rsize);
}
