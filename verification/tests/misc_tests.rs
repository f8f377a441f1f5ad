use rs_sim::appearance::wire_arms;
use rs_sim::block::{
    decode_barrel_strength, decode_button_powered, decode_comparator_mode, decode_lamp_lit,
    decode_lever_powered, decode_repeater_delay, decode_torch_on_wall, Block, BlockId,
    ComparatorMode, Direction,
};
use rs_sim::controls::{Cursor, PointerInput, SimMode};
use rs_sim::editor::Editor;
use rs_sim::export::{block_id_name, nbt_chunks};
use rs_sim::history::History;
use rs_sim::palette::{click_block, drag_direction, key_label, placement_block, SelectBlock};
use rs_sim::project::{saved_chunks, world_from_chunks};
use rs_sim::world::World;

#[test]
fn palette_order_and_cycling() {
    assert_eq!(SelectBlock::count(), 12);
    assert_eq!(SelectBlock::from_index(0), Some(SelectBlock::RedstoneWire));
    assert_eq!(SelectBlock::from_index(11), Some(SelectBlock::Eraser));
    assert_eq!(SelectBlock::from_index(12), None);
    assert_eq!(SelectBlock::Eraser.next(), SelectBlock::RedstoneWire);
    assert_eq!(SelectBlock::RedstoneWire.next(), SelectBlock::RedstoneTorch);
    for i in 0..12 {
        assert_eq!(SelectBlock::from_index(i).unwrap().index(), i);
    }
    assert_eq!(key_label(0), "1");
    assert_eq!(key_label(9), "0");
    assert_eq!(key_label(10), "");
    assert_eq!(SelectBlock::Comparator.label(), "Cmp");
    assert_eq!(SelectBlock::RedstoneWire.palette_color(), (200, 30, 30, 255));
    assert_eq!(SelectBlock::Lever.to_block(Direction::East), Block::lever(Direction::East, false));
    assert_eq!(SelectBlock::Eraser.to_block(Direction::East), Block::air());
}

#[test]
fn clicking_works_blocks() {
    let l = click_block(Block::lever(Direction::North, false)).unwrap();
    assert!(decode_lever_powered(l.data));
    let b = click_block(Block::barrel(15)).unwrap();
    assert_eq!(decode_barrel_strength(b.data), 0);
    let b = click_block(Block::barrel(3)).unwrap();
    assert_eq!(decode_barrel_strength(b.data), 4);
    let r = click_block(Block::repeater(Direction::North, 3, false, false)).unwrap();
    assert_eq!(decode_repeater_delay(r.data), 0);
    let c = click_block(Block::comparator(Direction::North, ComparatorMode::Compare, false)).unwrap();
    assert_eq!(decode_comparator_mode(c.data), ComparatorMode::Subtract);
    let bt = click_block(Block::button(Direction::North, false)).unwrap();
    assert!(decode_button_powered(bt.data));
    assert_eq!(click_block(Block::wire()), None);
    assert_eq!(click_block(Block::air()), None);
}

#[test]
fn drag_direction_follows_larger_move() {
    assert_eq!(drag_direction(Some((0, 0)), (3, 1)), Some(Direction::East));
    assert_eq!(drag_direction(Some((0, 0)), (-3, 1)), Some(Direction::West));
    assert_eq!(drag_direction(Some((0, 0)), (1, 1)), Some(Direction::South));
    assert_eq!(drag_direction(Some((0, 0)), (0, -2)), Some(Direction::North));
    assert_eq!(drag_direction(Some((4, 4)), (4, 4)), None);
    assert_eq!(drag_direction(None, (4, 4)), None);
    assert_eq!(drag_direction(Some((i32::MIN, 0)), (i32::MAX, 0)), Some(Direction::East));
}

#[test]
fn torch_placement_hangs_on_conductors() {
    let mut w = World::new(1, 1);
    w.set(5, 6, Block::solid());
    let t = placement_block(&w, SelectBlock::RedstoneTorch, 5, 5, Some(Direction::South), false);
    assert_eq!(t, Block::torch(true, true, Direction::South));
    let t = placement_block(&w, SelectBlock::RedstoneTorch, 5, 5, Some(Direction::South), true);
    assert_eq!(t, Block::torch(true, false, Direction::North));
    let t = placement_block(&w, SelectBlock::RedstoneTorch, 5, 5, Some(Direction::North), false);
    assert!(!decode_torch_on_wall(t.data));
    let r = placement_block(&w, SelectBlock::Repeater, 5, 5, None, false);
    assert_eq!(r, Block::repeater(Direction::South, 0, false, false));
    let s = placement_block(&w, SelectBlock::SolidBlock, 5, 5, Some(Direction::East), false);
    assert_eq!(s, Block::solid());
}

#[test]
fn export_lists_non_air_blocks() {
    let mut w = World::new(2, 1);
    w.set(3, 2, Block::wire());
    w.set(5, 1, Block::lever(Direction::East, true));
    let chunks = nbt_chunks(&w);
    assert_eq!(chunks.len(), 1);
    assert_eq!((chunks[0].cx, chunks[0].cy), (0, 0));
    assert_eq!(chunks[0].blocks.len(), 2);
    let first = &chunks[0].blocks[0];
    assert_eq!((first.x, first.y, first.block_id), (5, 1, "lever"));
    assert_eq!(first.data, 6);
    let second = &chunks[0].blocks[1];
    assert_eq!((second.x, second.y, second.block_id, second.power), (3, 2, "redstone_wire", 0));
    assert_eq!(block_id_name(BlockId::RedstoneLamp), "redstone_lamp");
    assert_eq!(block_id_name(BlockId::SolidBlock), "solid_block");
}

#[test]
fn save_then_load_round_trip() {
    let mut w = World::new(2, 2);
    w.set(3, 2, Block::wire());
    w.set(20, 30, Block::lamp());
    w.set(-5, -5, Block::target());
    let saved = saved_chunks(&w);
    assert_eq!(saved.len(), 3);
    let total: usize = saved.iter().map(|c| c.1.len()).sum();
    assert_eq!(total, 3);
    let back = world_from_chunks(&saved);
    assert_eq!(back.chunk_count(), 3);
    assert_eq!(back.get(3, 2), Some(&Block::wire()));
    assert_eq!(back.get(20, 30), Some(&Block::lamp()));
    assert_eq!(back.get(-5, -5), Some(&Block::target()));
    assert_eq!(back.get(4, 2), Some(&Block::air()));
    // Chunks of air alone are not saved.
    assert!(!back.in_bounds(20, 3));
}

#[test]
fn later_saved_chunk_replaces_earlier() {
    let chunks = vec![
        ((0, 0), vec![(1u8, 1u8, Block::wire())]),
        ((0, 0), vec![(2u8, 2u8, Block::solid()), (2u8, 2u8, Block::lamp())]),
    ];
    let w = world_from_chunks(&chunks);
    assert_eq!(w.chunk_count(), 1);
    assert_eq!(w.get(1, 1), Some(&Block::air()));
    assert_eq!(w.get(2, 2), Some(&Block::lamp()));
}

fn press(cell: (i32, i32), pressed: bool) -> PointerInput {
    PointerInput { cell, left_down: true, left_pressed: pressed, aim: Direction::East, at_center: false }
}

#[test]
fn left_button_places_and_drags() {
    let mut ed = Editor::new(World::new(1, 1), History::new());
    let mut cur = Cursor { selected_block: SelectBlock::RedstoneWire, left_held: false, last_placed_pos: None };
    ed.left_button(&mut cur, press((2, 2), true));
    assert_eq!(ed.world.get(2, 2), Some(&Block::wire()));
    assert!(cur.left_held);
    assert_eq!(cur.last_placed_pos, Some((2, 2)));
    ed.left_button(&mut cur, press((3, 2), false));
    assert_eq!(ed.world.get(3, 2), Some(&Block::wire()));
    let up = PointerInput { cell: (3, 2), left_down: false, left_pressed: false, aim: Direction::East, at_center: false };
    ed.left_button(&mut cur, up);
    assert!(!cur.left_held);
    assert_eq!(cur.last_placed_pos, None);
}

#[test]
fn left_button_drag_turns_repeaters() {
    let mut ed = Editor::new(World::new(1, 1), History::new());
    let mut cur = Cursor { selected_block: SelectBlock::Repeater, left_held: false, last_placed_pos: None };
    ed.left_button(&mut cur, press((2, 2), true));
    assert_eq!(ed.world.get(2, 2), Some(&Block::repeater(Direction::East, 0, false, false)));
    let drag = PointerInput { cell: (2, 3), left_down: true, left_pressed: false, aim: Direction::West, at_center: false };
    ed.left_button(&mut cur, drag);
    assert_eq!(ed.world.get(2, 3), Some(&Block::repeater(Direction::South, 0, false, false)));
}

#[test]
fn left_click_works_lever_and_loads_chunks() {
    let mut ed = Editor::new(World::new(1, 1), History::new());
    ed.set_block(4, 4, Block::lever(Direction::North, false));
    let mut cur = Cursor { selected_block: SelectBlock::SolidBlock, left_held: false, last_placed_pos: None };
    ed.left_button(&mut cur, press((4, 4), true));
    assert!(decode_lever_powered(ed.world.get(4, 4).unwrap().data));
    let mut cur = Cursor { selected_block: SelectBlock::SolidBlock, left_held: false, last_placed_pos: None };
    ed.left_button(&mut cur, press((40, 4), true));
    assert!(ed.world.in_bounds(40, 4));
    assert_eq!(ed.world.get(40, 4), Some(&Block::air()));
    ed.left_button(&mut cur, press((40, 4), true));
    assert_eq!(ed.world.get(40, 4), Some(&Block::solid()));
}

#[test]
fn eraser_and_paste_mode() {
    let mut ed = Editor::new(World::new(1, 1), History::new());
    ed.set_block(1, 1, Block::lamp());
    let mut cur = Cursor { selected_block: SelectBlock::Eraser, left_held: false, last_placed_pos: None };
    ed.left_button(&mut cur, press((1, 1), true));
    assert_eq!(ed.world.get(1, 1), Some(&Block::air()));
    ed.set_block(0, 0, Block::wire());
    ed.select_start = Some((0, 0));
    ed.select_end = Some((0, 0));
    ed.copy_selection();
    ed.toggle_paste_mode();
    assert!(ed.paste_mode);
    assert_eq!(ed.select_start, None);
    ed.left_button(&mut cur, press((5, 5), true));
    assert_eq!(ed.world.get(5, 5), Some(&Block::wire()));
    ed.cancel(&mut cur);
    assert!(!ed.paste_mode);
    ed.toggle_paste_mode();
    ed.toggle_paste_mode();
    assert!(!ed.paste_mode);
}

#[test]
fn toggle_paste_mode_needs_clipboard() {
    let mut ed = Editor::new(World::new(1, 1), History::new());
    ed.toggle_paste_mode();
    assert!(!ed.paste_mode);
}

#[test]
fn right_button_selects_and_erases() {
    let mut ed = Editor::new(World::new(1, 1), History::new());
    ed.set_block(2, 2, Block::wire());
    ed.right_button((2, 2), true, true);
    assert_eq!((ed.select_start, ed.select_end), (Some((2, 2)), Some((2, 2))));
    ed.right_button((4, 5), false, true);
    assert_eq!(ed.select_end, Some((4, 5)));
    assert_eq!(ed.get_selection_size(), Some((3, 4)));
    ed.right_button((2, 2), true, false);
    assert_eq!(ed.select_end, Some((2, 2)));
    ed.right_button((2, 2), true, false);
    assert_eq!(ed.world.get(2, 2), Some(&Block::air()));
    assert_eq!(ed.select_start, None);
    ed.right_button((99, 99), true, true);
    assert_eq!(ed.select_start, None);
}

#[test]
fn sim_mode_cycles() {
    assert_eq!(SimMode::Off.next(), SimMode::Timed);
    assert_eq!(SimMode::Timed.next(), SimMode::Instant);
    assert_eq!(SimMode::Instant.next(), SimMode::Off);
}

#[test]
fn wire_arm_shapes() {
    assert_eq!(wire_arms(false, false, false, false), (false, false, false, false));
    assert_eq!(wire_arms(true, false, false, false), (true, true, false, false));
    assert_eq!(wire_arms(false, false, false, true), (false, false, true, true));
    assert_eq!(wire_arms(true, false, true, false), (true, false, true, false));
    assert_eq!(wire_arms(true, true, true, true), (true, true, true, true));
}

#[test]
fn lamp_in_editor_lights_after_settling() {
    let mut ed = Editor::new(World::new(1, 1), History::new());
    ed.set_block(1, 1, Block::lamp());
    ed.set_block(2, 1, Block::lever(Direction::North, true));
    ed.settle_if_needed();
    assert!(decode_lamp_lit(ed.world.get(1, 1).unwrap().data));
}

#[test]
fn mode_key_sets_settle_flag_for_instant() {
    let mut ed = Editor::new(World::new(1, 1), History::new());
    ed.simulation_needed = false;
    assert_eq!(ed.switch_sim_mode(SimMode::Off), SimMode::Timed);
    assert!(!ed.simulation_needed);
    assert_eq!(ed.switch_sim_mode(SimMode::Timed), SimMode::Instant);
    assert!(ed.simulation_needed);
    ed.simulation_needed = false;
    assert_eq!(ed.switch_sim_mode(SimMode::Instant), SimMode::Off);
    assert!(!ed.simulation_needed);
}

#[test]
fn step_key_steps_only_in_manual_mode() {
    let mut ed = Editor::new(World::new(1, 1), History::new());
    ed.world.set(1, 1, Block::lamp());
    ed.world.set(2, 1, Block::lever(Direction::North, true));
    assert!(!ed.step_key(SimMode::Timed));
    assert!(!decode_lamp_lit(ed.world.get(1, 1).unwrap().data));
    assert!(!ed.step_key(SimMode::Instant));
    assert!(ed.step_key(SimMode::Off));
    assert!(decode_lamp_lit(ed.world.get(1, 1).unwrap().data));
}

#[test]
fn click_near_edge_with_wide_clipboard_places() {
    let mut ed = Editor::new(World::new(1, 1), History::new());
    ed.set_block(0, 0, Block::wire());
    ed.select_start = Some((0, 0));
    ed.select_end = Some((3, 0));
    ed.copy_selection();
    ed.cancel(&mut Cursor { selected_block: SelectBlock::SolidBlock, left_held: false, last_placed_pos: None });
    let mut cur = Cursor { selected_block: SelectBlock::SolidBlock, left_held: false, last_placed_pos: None };
    let far = PointerInput { cell: (i32::MAX, 0), left_down: true, left_pressed: true, aim: Direction::East, at_center: false };
    ed.left_button(&mut cur, far);
    assert!(ed.world.in_bounds(i32::MAX, 0));
}
