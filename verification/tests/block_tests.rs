use rs_sim::block::{
    decode_barrel_strength, decode_button_counter, decode_button_powered, decode_comparator_dir,
    decode_comparator_mode, decode_comparator_powered, decode_dir, decode_lamp_lit,
    decode_lever_dir, decode_lever_powered, decode_repeater_counter, decode_repeater_delay,
    decode_repeater_dir, decode_repeater_locked, decode_repeater_powered, decode_torch_dir,
    decode_torch_lit, decode_torch_on_wall, encode_barrel, encode_button, encode_comparator,
    encode_dir, encode_lamp, encode_lever, encode_repeater, encode_torch, Block, BlockId,
    ComparatorMode, Direction,
};

#[test]
fn direction_opposite_and_rotation() {
    for d in Direction::all() {
        assert_eq!(d.opposite().opposite(), d);
        assert_eq!(d.rotate_cw().rotate_ccw(), d);
        assert_eq!(d.rotate_cw().rotate_cw(), d.opposite());
        assert_eq!(d.dx() + d.opposite().dx(), 0);
        assert_eq!(d.dy() + d.opposite().dy(), 0);
        assert_eq!(Direction::from_delta(d.dx(), d.dy()), Some(d));
    }
    assert_eq!(Direction::North.rotate_cw(), Direction::East);
    assert_eq!(Direction::North.rotate_ccw(), Direction::West);
    assert_eq!(Direction::North.dy(), -1);
    assert_eq!(Direction::South.dy(), 1);
    assert_eq!(Direction::East.dx(), 1);
    assert_eq!(Direction::West.dx(), -1);
    assert_eq!(Direction::from_delta(1, 1), None);
    assert_eq!(Direction::from_delta(0, 0), None);
}

#[test]
fn direction_codes() {
    assert_eq!(encode_dir(Direction::North), 0);
    assert_eq!(encode_dir(Direction::South), 1);
    assert_eq!(encode_dir(Direction::East), 2);
    assert_eq!(encode_dir(Direction::West), 3);
    for d in Direction::all() {
        assert_eq!(decode_dir(encode_dir(d)), d);
    }
    assert_eq!(decode_dir(7), Direction::West);
}

#[test]
fn repeater_bits() {
    let data = encode_repeater(Direction::East, 2, true, false, 5);
    assert_eq!(data, 346);
    assert_eq!(decode_repeater_dir(data), Direction::East);
    assert_eq!(decode_repeater_delay(data), 2);
    assert!(decode_repeater_locked(data));
    assert!(!decode_repeater_powered(data));
    assert_eq!(decode_repeater_counter(data), 5);
    let clamped = encode_repeater(Direction::North, 9, false, true, 200);
    assert_eq!(decode_repeater_delay(clamped), 3);
    assert_eq!(decode_repeater_counter(clamped), 7);
    assert!(decode_repeater_powered(clamped));
}

#[test]
fn comparator_lever_torch_bits() {
    let c = encode_comparator(Direction::South, ComparatorMode::Subtract, true);
    assert_eq!(c, 13);
    assert_eq!(decode_comparator_dir(c), Direction::South);
    assert_eq!(decode_comparator_mode(c), ComparatorMode::Subtract);
    assert!(decode_comparator_powered(c));
    let l = encode_lever(Direction::East, true);
    assert_eq!(l, 6);
    assert_eq!(decode_lever_dir(l), Direction::East);
    assert!(decode_lever_powered(l));
    let t = encode_torch(true, true, Direction::West);
    assert_eq!(t, 15);
    assert!(decode_torch_lit(t));
    assert!(decode_torch_on_wall(t));
    assert_eq!(decode_torch_dir(t), Direction::West);
    assert_eq!(encode_lamp(true), 1);
    assert!(decode_lamp_lit(encode_lamp(true)));
    assert!(!decode_lamp_lit(encode_lamp(false)));
}

#[test]
fn button_and_barrel_bits() {
    let b = encode_button(Direction::West, true, 20);
    assert_eq!(b, 3 | 4 | (20 << 3));
    assert!(decode_button_powered(b));
    assert_eq!(decode_button_counter(b), 20);
    assert_eq!(decode_lever_dir(b), Direction::West);
    assert_eq!(decode_button_counter(encode_button(Direction::North, true, 99)), 31);
    assert_eq!(encode_barrel(7), 7);
    assert_eq!(encode_barrel(20), 15);
    assert_eq!(decode_barrel_strength(encode_barrel(9)), 9);
}

#[test]
fn block_constructors() {
    assert_eq!(Block::air(), Block { id: BlockId::Air, power: 0, data: 0 });
    assert_eq!(Block::new(BlockId::Target), Block::target());
    let b = Block::button(Direction::North, true);
    assert!(decode_button_powered(b.data));
    assert_eq!(decode_button_counter(b.data), 20);
    let off = Block::button(Direction::North, false);
    assert_eq!(decode_button_counter(off.data), 0);
    assert_eq!(Block::repeater(Direction::South, 1, false, true).data, encode_repeater(Direction::South, 1, false, true, 0));
    assert_eq!(Block::barrel(30).data, 15);
    assert_eq!(Block::torch(true, false, Direction::North).id, BlockId::RedstoneTorch);
}

#[test]
fn block_display_names() {
    assert_eq!(Block::air().display_name(), "Air");
    assert_eq!(Block::solid().display_name(), "Block");
    assert_eq!(Block::wire().display_name(), "Wire");
    assert_eq!(Block::redstone_block().display_name(), "Redstone Block");
    assert_eq!(Block::lamp().display_name(), "Lamp");
    assert_eq!(Block::barrel(3).display_name(), "Barrel");
    assert_eq!(Block::target().display_name(), "Target");
}
