use rs_sim::block::{
    decode_button_counter, decode_button_powered, decode_comparator_powered, decode_lamp_lit,
    decode_repeater_counter, decode_repeater_powered, decode_torch_lit, Block, ComparatorMode,
    Direction,
};
use rs_sim::sim::components::{dir_from_neighbor, update_components};
use rs_sim::sim::power::{
    block_is_strongly_powered, calculate_wire_power, comparator_side_power, get_input_power,
    get_input_power_from_side, get_input_power_toward, is_block_powered, torch_is_blocked,
    wire_connects_in_dir,
};
use rs_sim::sim::{step_simulation, update_simulation};
use rs_sim::world::World;

#[test]
fn wire_power_decays_along_a_line() {
    let mut w = World::new(1, 1);
    w.set(1, 5, Block::redstone_block());
    for x in 2..10 {
        w.set(x, 5, Block::wire());
    }
    calculate_wire_power(&mut w);
    for x in 2..10 {
        assert_eq!(w.get(x, 5).unwrap().power, 17 - x as u8);
    }
}

#[test]
fn wire_power_stops_after_fifteen() {
    let mut w = World::new(2, 1);
    w.set(0, 0, Block::redstone_block());
    for x in 1..20 {
        w.set(x, 0, Block::wire());
    }
    calculate_wire_power(&mut w);
    assert_eq!(w.get(15, 0).unwrap().power, 1);
    assert_eq!(w.get(16, 0).unwrap().power, 0);
    assert_eq!(w.get(19, 0).unwrap().power, 0);
}

#[test]
fn wire_power_pass_is_idempotent() {
    let mut w = World::new(1, 1);
    w.set(1, 1, Block::torch(true, false, Direction::North));
    w.set(2, 1, Block::wire());
    w.set(3, 1, Block::wire());
    w.set(3, 2, Block::solid());
    calculate_wire_power(&mut w);
    let first: Vec<Block> = (0..16).map(|x| *w.get(x, 1).unwrap()).collect();
    let solid = *w.get(3, 2).unwrap();
    calculate_wire_power(&mut w);
    let second: Vec<Block> = (0..16).map(|x| *w.get(x, 1).unwrap()).collect();
    assert_eq!(first, second);
    assert_eq!(solid, *w.get(3, 2).unwrap());
    assert_eq!(w.get(2, 1).unwrap().power, 15);
    assert_eq!(w.get(3, 1).unwrap().power, 14);
}

#[test]
fn test_circuit_lights_its_lamp() {
    let mut w = World::new(4, 4);
    w.place_test_circuit();
    let changed = update_simulation(&mut w);
    assert!(changed);
    assert_eq!(w.get(30, 32).unwrap().power, 15);
    assert_eq!(w.get(31, 32).unwrap().power, 14);
    assert!(decode_repeater_powered(w.get(32, 32).unwrap().data));
    assert_eq!(w.get(33, 32).unwrap().power, 15);
    assert_eq!(w.get(34, 32).unwrap().power, 14);
    assert!(decode_lamp_lit(w.get(35, 32).unwrap().data));
    assert!(!decode_lamp_lit(w.get(33, 34).unwrap().data));
}

#[test]
fn lever_powers_wire_and_target() {
    let mut w = World::new(4, 4);
    w.place_test_circuit();
    w.set(29, 34, Block::lever(Direction::North, true));
    update_simulation(&mut w);
    assert_eq!(w.get(30, 34).unwrap().power, 15);
    assert_eq!(w.get(31, 34).unwrap().power, 15);
    assert_eq!(w.get(32, 34).unwrap().power, 0);
}

#[test]
fn button_releases_after_twenty_ticks() {
    let mut w = World::new(1, 1);
    w.set(5, 5, Block::button(Direction::North, true));
    for _ in 0..19 {
        step_simulation(&mut w);
    }
    let b = *w.get(5, 5).unwrap();
    assert!(decode_button_powered(b.data));
    assert_eq!(decode_button_counter(b.data), 1);
    step_simulation(&mut w);
    let b = *w.get(5, 5).unwrap();
    assert!(!decode_button_powered(b.data));
    assert_eq!(decode_button_counter(b.data), 0);
}

#[test]
fn repeater_waits_its_delay() {
    let mut w = World::new(1, 1);
    w.set(4, 5, Block::lever(Direction::North, true));
    w.set(5, 5, Block::repeater(Direction::East, 1, false, false));
    assert!(update_components(&mut w));
    let d = w.get(5, 5).unwrap().data;
    assert!(!decode_repeater_powered(d));
    assert_eq!(decode_repeater_counter(d), 2);
    update_components(&mut w);
    let d = w.get(5, 5).unwrap().data;
    assert!(!decode_repeater_powered(d));
    assert_eq!(decode_repeater_counter(d), 1);
    update_components(&mut w);
    let d = w.get(5, 5).unwrap().data;
    assert!(decode_repeater_powered(d));
    assert_eq!(decode_repeater_counter(d), 0);
    assert!(!update_components(&mut w));
}

#[test]
fn repeater_without_delay_switches_at_once() {
    let mut w = World::new(1, 1);
    w.set(4, 5, Block::redstone_block());
    w.set(5, 5, Block::repeater(Direction::East, 0, false, false));
    update_components(&mut w);
    assert!(decode_repeater_powered(w.get(5, 5).unwrap().data));
}

#[test]
fn locked_repeater_holds() {
    let mut w = World::new(1, 1);
    w.set(4, 5, Block::redstone_block());
    w.set(5, 5, Block::repeater(Direction::East, 0, false, false));
    // A powered repeater facing into the side locks it.
    w.set(5, 4, Block::repeater(Direction::South, 0, false, true));
    update_components(&mut w);
    assert!(!decode_repeater_powered(w.get(5, 5).unwrap().data));
}

#[test]
fn wall_torch_turns_off_when_its_block_is_powered() {
    let mut w = World::new(1, 1);
    w.set(3, 5, Block::lever(Direction::North, true));
    w.set(4, 5, Block::solid());
    w.set(5, 5, Block::torch(true, true, Direction::West));
    assert!(torch_is_blocked(&w, 5, 5));
    step_simulation(&mut w);
    assert!(!decode_torch_lit(w.get(5, 5).unwrap().data));
}

#[test]
fn floor_torch_is_never_blocked() {
    let mut w = World::new(1, 1);
    w.set(4, 5, Block::redstone_block());
    w.set(5, 5, Block::torch(true, false, Direction::North));
    assert!(!torch_is_blocked(&w, 5, 5));
    assert!(!torch_is_blocked(&w, 100, 100));
}

#[test]
fn comparator_compare_and_subtract() {
    let mut w = World::new(1, 1);
    w.set(4, 5, Block::redstone_block());
    w.set(5, 5, Block::comparator(Direction::East, ComparatorMode::Compare, false));
    update_components(&mut w);
    let c = *w.get(5, 5).unwrap();
    assert_eq!(c.power, 15);
    assert!(decode_comparator_powered(c.data));

    let mut w = World::new(1, 1);
    w.set(4, 5, Block::redstone_block());
    w.set(5, 4, Block::redstone_block());
    w.set(5, 5, Block::comparator(Direction::East, ComparatorMode::Subtract, false));
    update_components(&mut w);
    let c = *w.get(5, 5).unwrap();
    assert_eq!(c.power, 0);
    assert!(!decode_comparator_powered(c.data));
}

#[test]
fn comparator_reads_barrel_strength() {
    let mut w = World::new(1, 1);
    w.set(4, 5, Block::barrel(9));
    w.set(5, 5, Block::comparator(Direction::East, ComparatorMode::Compare, false));
    update_components(&mut w);
    assert_eq!(w.get(5, 5).unwrap().power, 9);
    assert_eq!(get_input_power(&w, 4, 5, true), 9);
    assert_eq!(get_input_power(&w, 4, 5, false), 0);
}

#[test]
fn lamp_follows_power() {
    let mut w = World::new(1, 1);
    w.set(5, 5, Block::lamp());
    w.set(4, 5, Block::lever(Direction::North, true));
    assert!(is_block_powered(&w, 5, 5));
    step_simulation(&mut w);
    assert!(decode_lamp_lit(w.get(5, 5).unwrap().data));
    w.set(4, 5, Block::lever(Direction::North, false));
    step_simulation(&mut w);
    assert!(!decode_lamp_lit(w.get(5, 5).unwrap().data));
}

#[test]
fn power_queries() {
    let mut w = World::new(1, 1);
    w.set(5, 5, Block::solid());
    w.set(4, 5, Block::repeater(Direction::East, 0, false, true));
    assert_eq!(block_is_strongly_powered(&w, 5, 5), 15);
    assert_eq!(get_input_power_from_side(&w, 5, 5, Direction::West), 15);
    assert_eq!(get_input_power_toward(&w, 4, 5, Direction::East, false), 15);
    assert_eq!(get_input_power_toward(&w, 4, 5, Direction::North, false), 0);
    assert_eq!(comparator_side_power(&w, 4, 5, Direction::West), 15);
    assert_eq!(comparator_side_power(&w, 4, 5, Direction::East), 0);
    assert_eq!(get_input_power(&w, 50, 50, false), 0);
    w.set(6, 6, Block::wire());
    assert!(!wire_connects_in_dir(&w, 6, 6, Direction::North));
    assert!(!wire_connects_in_dir(&w, 6, 6, Direction::West));
    w.set(6, 5, Block::lever(Direction::North, false));
    assert!(wire_connects_in_dir(&w, 6, 6, Direction::North));
}

#[test]
fn dir_from_neighbor_points_at_target() {
    assert_eq!(dir_from_neighbor(5, 5, 5, 4), Direction::South);
    assert_eq!(dir_from_neighbor(5, 5, 4, 5), Direction::East);
    assert_eq!(dir_from_neighbor(5, 5, 9, 9), Direction::North);
}

#[test]
fn empty_world_settles_at_once() {
    let mut w = World::new(1, 1);
    assert!(!update_simulation(&mut w));
    assert!(!step_simulation(&mut w));
}

#[test]
fn quiet_step_leaves_a_still_world() {
    let mut w = World::new(1, 1);
    w.set(4, 5, Block::lever(Direction::North, true));
    w.set(5, 5, Block::lamp());
    w.set(3, 5, Block::wire());
    assert!(update_simulation(&mut w));
    let before: Vec<Block> = (0..16).map(|x| *w.get(x, 5).unwrap()).collect();
    assert!(!step_simulation(&mut w));
    let after: Vec<Block> = (0..16).map(|x| *w.get(x, 5).unwrap()).collect();
    assert_eq!(before, after);
    assert!(decode_lamp_lit(w.get(5, 5).unwrap().data));
    assert_eq!(w.get(3, 5).unwrap().power, 15);
}
