use rs_sim::block::{Block, BlockId, Direction};
use rs_sim::world::{Chunk, World};

#[test]
fn new_world_is_air() {
    let w = World::new(2, 3);
    assert_eq!(w.chunk_count(), 6);
    assert_eq!(w.get(0, 0), Some(&Block::air()));
    assert_eq!(w.get(31, 47), Some(&Block::air()));
    assert_eq!(w.get(32, 0), None);
    assert_eq!(w.get(-1, 0), None);
    assert!(w.in_bounds(10, 40));
    assert!(!w.in_bounds(10, 48));
    let c = Chunk::new();
    assert_eq!(c.blocks.len(), 256);
    assert!(c.blocks.iter().all(|b| *b == Block::air()));
}

#[test]
fn chunk_at_floors() {
    let w = World::new(1, 1);
    assert_eq!(w.chunk_at(0, 0), (0, 0));
    assert_eq!(w.chunk_at(15, 16), (0, 1));
    assert_eq!(w.chunk_at(-1, -16), (-1, -1));
    assert_eq!(w.chunk_at(-17, 15), (-2, 0));
    assert_eq!(w.chunk_at(i32::MIN, i32::MAX), (-134217728, 134217727));
}

#[test]
fn set_then_get() {
    let mut w = World::new(1, 1);
    w.set(3, 4, Block::wire());
    assert_eq!(w.get(3, 4), Some(&Block::wire()));
    assert_eq!(w.get(4, 3), Some(&Block::air()));
    w.set(3, 4, Block::solid());
    assert_eq!(w.get(3, 4), Some(&Block::solid()));
    assert_eq!(w.chunk_count(), 1);
}

#[test]
fn set_outside_loads_chunk() {
    let mut w = World::new(1, 1);
    w.set(-1, -1, Block::lamp());
    assert_eq!(w.chunk_count(), 2);
    assert_eq!(w.get(-1, -1), Some(&Block::lamp()));
    assert_eq!(w.get(-16, -16), Some(&Block::air()));
    assert_eq!(w.get(-17, -1), None);
    assert!(w.chunk_keys().contains(&(-1, -1)));
}

#[test]
fn expand_to_chunk_keeps_blocks() {
    let mut w = World::new(1, 1);
    w.set(2, 2, Block::wire());
    w.expand_to_chunk(0, 0);
    assert_eq!(w.chunk_count(), 1);
    assert_eq!(w.get(2, 2), Some(&Block::wire()));
    w.expand_to_chunk(5, -2);
    assert_eq!(w.chunk_count(), 2);
    assert_eq!(w.get(80, -32), Some(&Block::air()));
}

#[test]
fn get_mut_writes_through() {
    let mut w = World::new(1, 1);
    if let Some(b) = w.get_mut(1, 1) {
        *b = Block::target();
    }
    assert_eq!(w.get(1, 1), Some(&Block::target()));
    assert!(w.get_mut(100, 100).is_none());
}

#[test]
fn clear_turns_everything_to_air() {
    let mut w = World::new(2, 1);
    w.set(1, 1, Block::wire());
    w.set(20, 3, Block::redstone_block());
    w.clear();
    assert_eq!(w.chunk_count(), 2);
    assert_eq!(w.get(1, 1), Some(&Block::air()));
    assert_eq!(w.get(20, 3), Some(&Block::air()));
}

#[test]
fn for_each_visits_every_cell() {
    let mut w = World::new(2, 1);
    w.set(5, 6, Block::wire());
    let mut count = 0;
    let mut wires = Vec::new();
    w.for_each(|x, y, b| {
        count += 1;
        if b.id == BlockId::RedstoneWire {
            wires.push((x, y));
        }
    });
    assert_eq!(count, 512);
    assert_eq!(wires, vec![(5, 6)]);
}

#[test]
fn for_each_mut_changes_cells() {
    let mut w = World::new(1, 1);
    w.for_each_mut(|x, y, b| {
        if x == y {
            *b = Block::solid();
        }
    });
    assert_eq!(w.get(7, 7), Some(&Block::solid()));
    assert_eq!(w.get(7, 8), Some(&Block::air()));
}

#[test]
fn test_circuit_layout() {
    let mut w = World::new(4, 4);
    w.place_test_circuit();
    assert_eq!(w.get(29, 32), Some(&Block::torch(true, false, Direction::North)));
    assert_eq!(w.get(32, 32).unwrap().id, BlockId::Repeater);
    assert_eq!(w.get(35, 32), Some(&Block::lamp()));
    assert_eq!(w.get(31, 34), Some(&Block::target()));
    assert_eq!(w.get(54, 32), Some(&Block::solid()));
    assert_eq!(w.get(53, 35), Some(&Block::lever(Direction::North, false)));
}

#[test]
fn cell_bounds_cover_chunks() {
    let w = World::new(2, 3);
    assert_eq!(w.cell_bounds(), Some((0, 0, 32, 48)));
    let mut w2 = World::new(0, 0);
    assert_eq!(w2.cell_bounds(), None);
    w2.set(-20, 5, Block::wire());
    assert_eq!(w2.cell_bounds(), Some((-32, 0, -16, 16)));
}

#[test]
fn empty_dimension_gives_empty_world() {
    let w = World::new(0, 1 << 28);
    assert_eq!(w.chunk_count(), 0);
    let w = World::new(1 << 40, 0);
    assert_eq!(w.chunk_count(), 0);
}

#[test]
fn expand_twice_is_expand_once() {
    let mut w = World::new(1, 1);
    w.expand_to_chunk(3, 3);
    w.expand_to_chunk(3, 3);
    assert_eq!(w.chunk_count(), 2);
    assert!(w.chunk_keys().contains(&(3, 3)));
    assert!(w.chunk_keys().contains(&(0, 0)));
}
