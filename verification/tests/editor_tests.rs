use rs_sim::block::{decode_lever_powered, Block, BlockId, Direction};
use rs_sim::editor::{ClipboardData, Editor};
use rs_sim::history::{EditChange, History};
use rs_sim::world::World;

fn editor() -> Editor {
    Editor::new(World::new(2, 2), History::new())
}

#[test]
fn history_record_undo_redo() {
    let mut h = History::new();
    h.record(1, 2, Block::air(), Block::wire());
    assert_eq!(h.undo_stack.len(), 1);
    let a = h.undo().unwrap();
    assert_eq!(a.changes, vec![EditChange { x: 1, y: 2, old_block: Block::air(), new_block: Block::wire() }]);
    assert_eq!(h.undo_stack.len(), 0);
    assert_eq!(h.redo_stack.len(), 1);
    assert!(h.undo().is_none());
    let r = h.redo().unwrap();
    assert_eq!(r.changes.len(), 1);
    assert_eq!(h.undo_stack.len(), 1);
    assert!(h.redo().is_none());
}

#[test]
fn history_groups_actions() {
    let mut h = History::new();
    h.begin_action();
    h.record(0, 0, Block::air(), Block::wire());
    h.record(1, 0, Block::air(), Block::wire());
    assert_eq!(h.undo_stack.len(), 0);
    h.end_action();
    assert_eq!(h.undo_stack.len(), 1);
    assert_eq!(h.undo_stack[0].changes.len(), 2);
    h.begin_action();
    h.end_action();
    assert_eq!(h.undo_stack.len(), 1);
    let (u, r) = h.stacks();
    assert_eq!(u.len(), 1);
    assert_eq!(r.len(), 0);
}

#[test]
fn new_record_clears_redo() {
    let mut h = History::new();
    h.record(0, 0, Block::air(), Block::wire());
    h.undo();
    assert_eq!(h.redo_stack.len(), 1);
    h.record(0, 0, Block::air(), Block::solid());
    assert_eq!(h.redo_stack.len(), 0);
    assert_eq!(h.undo_stack.len(), 1);
}

#[test]
fn set_block_then_undo_and_redo() {
    let mut ed = editor();
    assert!(ed.simulation_needed);
    ed.simulation_needed = false;
    ed.set_block(3, 3, Block::wire());
    assert_eq!(ed.world.get(3, 3), Some(&Block::wire()));
    assert!(ed.simulation_needed && ed.dirty && ed.auto_save_needed);
    assert_eq!(ed.history.undo_stack.len(), 1);
    ed.undo();
    assert_eq!(ed.world.get(3, 3), Some(&Block::air()));
    ed.redo();
    assert_eq!(ed.world.get(3, 3), Some(&Block::wire()));
}

#[test]
fn set_block_with_same_block_records_nothing() {
    let mut ed = editor();
    ed.set_block(3, 3, Block::air());
    assert_eq!(ed.history.undo_stack.len(), 0);
    assert!(!ed.dirty);
}

#[test]
fn set_block_outside_loads_chunk() {
    let mut ed = editor();
    ed.set_block(100, 100, Block::solid());
    assert_eq!(ed.world.get(100, 100), Some(&Block::solid()));
    ed.undo();
    assert_eq!(ed.world.get(100, 100), Some(&Block::air()));
    assert!(ed.world.in_bounds(96, 96));
}

#[test]
fn copy_then_paste_elsewhere() {
    let mut ed = editor();
    ed.set_block(1, 1, Block::wire());
    ed.set_block(2, 1, Block::solid());
    ed.select_start = Some((2, 2));
    ed.select_end = Some((1, 1));
    assert_eq!(ed.get_selection_size(), Some((2, 2)));
    ed.copy_selection();
    let clip: &ClipboardData = ed.clipboard.as_ref().unwrap();
    assert_eq!((clip.width, clip.height), (2, 2));
    assert_eq!(clip.rows[0], vec![Block::wire(), Block::solid()]);
    assert_eq!(clip.rows[1], vec![Block::air(), Block::air()]);
    ed.world.set(11, 11, Block::lamp());
    ed.world.set(10, 11, Block::lamp());
    let before = ed.history.undo_stack.len();
    ed.paste_clipboard(10, 10);
    assert_eq!(ed.world.get(10, 10), Some(&Block::wire()));
    assert_eq!(ed.world.get(11, 10), Some(&Block::solid()));
    // Air in the clipboard does not overwrite.
    assert_eq!(ed.world.get(11, 11), Some(&Block::lamp()));
    assert_eq!(ed.history.undo_stack.len(), before + 1);
    ed.undo();
    assert_eq!(ed.world.get(10, 10), Some(&Block::air()));
    assert_eq!(ed.world.get(11, 10), Some(&Block::air()));
}

#[test]
fn paste_in_place_changes_nothing() {
    let mut ed = editor();
    ed.set_block(1, 1, Block::wire());
    ed.select_start = Some((0, 0));
    ed.select_end = Some((3, 3));
    ed.copy_selection();
    let before = ed.history.undo_stack.len();
    ed.paste_clipboard(0, 0);
    assert_eq!(ed.history.undo_stack.len(), before);
    assert_eq!(ed.world.get(1, 1), Some(&Block::wire()));
}

#[test]
fn paste_skips_unloaded_cells() {
    let mut ed = editor();
    ed.set_block(0, 0, Block::wire());
    ed.select_start = Some((0, 0));
    ed.select_end = Some((0, 0));
    ed.copy_selection();
    ed.paste_clipboard(200, 200);
    assert!(!ed.world.in_bounds(200, 200));
}

#[test]
fn cut_copies_and_clears() {
    let mut ed = editor();
    ed.set_block(5, 5, Block::redstone_block());
    ed.select_start = Some((5, 5));
    ed.select_end = Some((6, 5));
    ed.cut_selection();
    assert_eq!(ed.world.get(5, 5), Some(&Block::air()));
    assert_eq!(ed.select_start, None);
    assert_eq!(ed.clipboard.as_ref().unwrap().rows[0], vec![Block::redstone_block(), Block::air()]);
    ed.undo();
    assert_eq!(ed.world.get(5, 5), Some(&Block::redstone_block()));
}

#[test]
fn delete_selection_is_one_action() {
    let mut ed = editor();
    ed.set_block(1, 1, Block::wire());
    ed.set_block(2, 2, Block::wire());
    ed.select_start = Some((0, 0));
    ed.select_end = Some((2, 2));
    ed.delete_selection();
    assert_eq!(ed.world.get(1, 1), Some(&Block::air()));
    assert_eq!(ed.world.get(2, 2), Some(&Block::air()));
    assert_eq!(ed.history.undo_stack.last().unwrap().changes.len(), 2);
    assert_eq!(ed.select_end, None);
    ed.undo();
    assert_eq!(ed.world.get(1, 1), Some(&Block::wire()));
    assert_eq!(ed.world.get(2, 2), Some(&Block::wire()));
}

#[test]
fn nothing_selected_does_nothing() {
    let mut ed = editor();
    assert_eq!(ed.get_selection_size(), None);
    ed.copy_selection();
    ed.cut_selection();
    ed.delete_selection();
    assert!(ed.clipboard.is_none());
    assert_eq!(ed.history.undo_stack.len(), 0);
}

#[test]
fn clear_all_then_undo() {
    let mut ed = editor();
    ed.set_block(1, 1, Block::wire());
    ed.set_block(20, 20, Block::lever(Direction::North, true));
    ed.clear_all();
    assert_eq!(ed.world.get(1, 1), Some(&Block::air()));
    assert_eq!(ed.world.get(20, 20), Some(&Block::air()));
    assert_eq!(ed.history.undo_stack.len(), 3);
    ed.undo();
    assert!(decode_lever_powered(ed.world.get(20, 20).unwrap().data));
    assert_eq!(ed.world.get(1, 1).unwrap().id, BlockId::RedstoneWire);
}

#[test]
fn start_new_and_load_and_saved() {
    let mut ed = editor();
    ed.set_block(1, 1, Block::wire());
    ed.start_new();
    assert_eq!(ed.world.get(1, 1), Some(&Block::air()));
    assert_eq!(ed.world.chunk_count(), 16);
    assert_eq!(ed.history.undo_stack.len(), 0);
    assert!(!ed.dirty);
    ed.set_block(1, 1, Block::wire());
    assert!(ed.dirty);
    ed.mark_saved();
    assert!(!ed.dirty && !ed.auto_save_needed);
    let mut w = World::new(1, 1);
    w.set(0, 0, Block::solid());
    ed.simulation_needed = false;
    ed.load(w, History::new());
    assert!(ed.simulation_needed);
    assert_eq!(ed.world.get(0, 0), Some(&Block::solid()));
}

#[test]
fn settle_runs_once_when_due() {
    let mut ed = editor();
    ed.set_block(1, 1, Block::redstone_block());
    ed.set_block(2, 1, Block::wire());
    ed.settle_if_needed();
    assert!(!ed.simulation_needed);
    assert_eq!(ed.world.get(2, 1).unwrap().power, 15);
    ed.world.set(3, 1, Block::wire());
    ed.settle_if_needed();
    assert_eq!(ed.world.get(3, 1).unwrap().power, 0);
}

#[test]
fn grouped_action_keeps_call_order() {
    let mut h = History::new();
    h.record(9, 9, Block::air(), Block::lamp());
    h.undo();
    h.begin_action();
    h.record(1, 0, Block::air(), Block::wire());
    h.record(0, 0, Block::air(), Block::solid());
    assert_eq!(h.undo_stack.len(), 0);
    assert_eq!(h.redo_stack.len(), 1);
    h.end_action();
    assert_eq!(h.redo_stack.len(), 0);
    let xs: Vec<i32> = h.undo_stack[0].changes.iter().map(|c| c.x).collect();
    assert_eq!(xs, vec![1, 0]);
    h.end_action();
    assert_eq!(h.undo_stack.len(), 1);
}
