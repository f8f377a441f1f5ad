use vstd::prelude::*;

use crate::constants::{
    BARREL_MAX_STRENGTH, BARREL_STRENGTH_MASK, BUTTON_COUNTER_MASK, BUTTON_COUNTER_SHIFT,
    BUTTON_DEFAULT_TICKS, BUTTON_MAX_COUNTER, BUTTON_POWERED_SHIFT, COMPARATOR_MODE_SHIFT,
    COMPARATOR_POWERED_SHIFT, DIR_MASK, LEVER_POWERED_SHIFT, REPEATER_COUNTER_MASK,
    REPEATER_COUNTER_SHIFT, REPEATER_DELAY_MASK, REPEATER_DELAY_SHIFT, REPEATER_LOCKED_SHIFT,
    REPEATER_MAX_COUNTER, REPEATER_MAX_DELAY, REPEATER_POWERED_SHIFT, TORCH_DIR_SHIFT,
};

verus! {

/// One of the four horizontal directions of the grid; north is -y, east is +x.
#[derive(Debug, Clone, Copy, PartialEq, Eq, Structural)]
pub enum Direction {
    North,
    South,
    East,
    West,
}

/// The numeric code of a direction in the packed block data.
pub open spec fn dir_code(d: Direction) -> int {
    match d {
        Direction::North => 0,
        Direction::South => 1,
        Direction::East => 2,
        Direction::West => 3,
    }
}

/// The direction with the given code (codes are taken modulo 4).
pub open spec fn dir_of_code(c: int) -> Direction {
    let m = c % 4;
    if m == 0 {
        Direction::North
    } else if m == 1 {
        Direction::South
    } else if m == 2 {
        Direction::East
    } else {
        Direction::West
    }
}

pub open spec fn spec_opposite(d: Direction) -> Direction {
    match d {
        Direction::North => Direction::South,
        Direction::South => Direction::North,
        Direction::East => Direction::West,
        Direction::West => Direction::East,
    }
}

pub open spec fn spec_rotate_cw(d: Direction) -> Direction {
    match d {
        Direction::North => Direction::East,
        Direction::East => Direction::South,
        Direction::South => Direction::West,
        Direction::West => Direction::North,
    }
}

pub open spec fn spec_rotate_ccw(d: Direction) -> Direction {
    match d {
        Direction::North => Direction::West,
        Direction::West => Direction::South,
        Direction::South => Direction::East,
        Direction::East => Direction::North,
    }
}

pub open spec fn spec_dx(d: Direction) -> int {
    match d {
        Direction::East => 1,
        Direction::West => -1,
        _ => 0,
    }
}

pub open spec fn spec_dy(d: Direction) -> int {
    match d {
        Direction::South => 1,
        Direction::North => -1,
        _ => 0,
    }
}

/// The direction whose unit step is `(dx, dy)`.
pub open spec fn spec_from_delta(dx: int, dy: int) -> Option<Direction> {
    if dx == 0 && dy == -1 {
        Some(Direction::North)
    } else if dx == 0 && dy == 1 {
        Some(Direction::South)
    } else if dx == 1 && dy == 0 {
        Some(Direction::East)
    } else if dx == -1 && dy == 0 {
        Some(Direction::West)
    } else {
        None
    }
}

/// The four directions in the order the simulation visits them.
pub open spec fn all_dirs() -> Seq<Direction> {
    seq![Direction::North, Direction::South, Direction::East, Direction::West]
}

impl Direction {
    /// The four directions, in the order North, South, East, West.
    pub fn all() -> (r: [Direction; 4])
        ensures
            r@ == all_dirs(),
    {
        let r = [Direction::North, Direction::South, Direction::East, Direction::West];
        assert(r@ =~= all_dirs());
        r
    }

    pub fn opposite(self) -> (r: Self)
        ensures
            r == spec_opposite(self),
    {
        match self {
            Direction::North => Direction::South,
            Direction::South => Direction::North,
            Direction::East => Direction::West,
            Direction::West => Direction::East,
        }
    }

    pub fn dx(self) -> (r: i32)
        ensures
            r == spec_dx(self),
    {
        match self {
            Direction::East => 1,
            Direction::West => -1,
            _ => 0,
        }
    }

    pub fn dy(self) -> (r: i32)
        ensures
            r == spec_dy(self),
    {
        match self {
            Direction::South => 1,
            Direction::North => -1,
            _ => 0,
        }
    }

    /// The direction whose unit step is `(dx, dy)`, if there is one.
    pub fn from_delta(dx: i32, dy: i32) -> (r: Option<Self>)
        ensures
            r == spec_from_delta(dx as int, dy as int),
    {
        if dx == 0 && dy == -1 {
            Some(Direction::North)
        } else if dx == 0 && dy == 1 {
            Some(Direction::South)
        } else if dx == 1 && dy == 0 {
            Some(Direction::East)
        } else if dx == -1 && dy == 0 {
            Some(Direction::West)
        } else {
            None
        }
    }

    pub fn rotate_cw(self) -> (r: Self)
        ensures
            r == spec_rotate_cw(self),
    {
        match self {
            Direction::North => Direction::East,
            Direction::East => Direction::South,
            Direction::South => Direction::West,
            Direction::West => Direction::North,
        }
    }

    pub fn rotate_ccw(self) -> (r: Self)
        ensures
            r == spec_rotate_ccw(self),
    {
        match self {
            Direction::North => Direction::West,
            Direction::West => Direction::South,
            Direction::South => Direction::East,
            Direction::East => Direction::North,
        }
    }
}

/// Facts about directions: `opposite` is an involution and reverses the unit
/// step, the two rotations undo each other, turning clockwise twice faces the
/// opposite way, four turns are the identity, and `from_delta` recovers a
/// direction from its unit step.
pub proof fn lemma_direction_laws(d: Direction)
    ensures
        spec_opposite(spec_opposite(d)) == d,
        spec_dx(spec_opposite(d)) == -spec_dx(d),
        spec_dy(spec_opposite(d)) == -spec_dy(d),
        spec_rotate_ccw(spec_rotate_cw(d)) == d,
        spec_rotate_cw(spec_rotate_ccw(d)) == d,
        spec_rotate_cw(spec_rotate_cw(d)) == spec_opposite(d),
        spec_rotate_cw(spec_rotate_cw(spec_rotate_cw(spec_rotate_cw(d)))) == d,
        spec_opposite(d) != d,
        dir_of_code(dir_code(d)) == d,
        spec_from_delta(spec_dx(d), spec_dy(d)) == Some(d),
        spec_from_delta(-spec_dx(d), -spec_dy(d)) == Some(spec_opposite(d)),
{
    match d {
        Direction::North => {},
        Direction::South => {},
        Direction::East => {},
        Direction::West => {},
    }
}

#[derive(Debug, Clone, Copy, PartialEq, Eq, Structural)]
pub enum BlockId {
    Air,
    SolidBlock,
    RedstoneWire,
    RedstoneTorch,
    RedstoneBlock,
    Repeater,
    Comparator,
    Lever,
    Button,
    RedstoneLamp,
    Target,
    Barrel,
}

#[derive(Debug, Clone, Copy, PartialEq, Eq, Structural)]
pub enum ComparatorMode {
    Compare,
    Subtract,
}

pub open spec fn mode_code(m: ComparatorMode) -> int {
    match m {
        ComparatorMode::Compare => 0,
        ComparatorMode::Subtract => 1,
    }
}

pub open spec fn bit(b: bool) -> int {
    if b {
        1
    } else {
        0
    }
}

pub open spec fn min_int(a: int, b: int) -> int {
    if a < b {
        a
    } else {
        b
    }
}

// ── Packed layouts, as numbers ──
pub open spec fn spec_encode_repeater(
    dir: Direction,
    delay: int,
    locked: bool,
    powered: bool,
    counter: int,
) -> int {
    dir_code(dir) + 4 * min_int(delay, 3) + 16 * bit(locked) + 32 * bit(powered) + 64 * min_int(
        counter,
        7,
    )
}

pub open spec fn spec_encode_comparator(dir: Direction, mode: ComparatorMode, powered: bool) -> int {
    dir_code(dir) + 4 * mode_code(mode) + 8 * bit(powered)
}

pub open spec fn spec_encode_lever(dir: Direction, powered: bool) -> int {
    dir_code(dir) + 4 * bit(powered)
}

pub open spec fn spec_encode_torch(lit: bool, on_wall: bool, dir: Direction) -> int {
    bit(lit) + 2 * bit(on_wall) + 4 * dir_code(dir)
}

pub open spec fn spec_encode_button(dir: Direction, powered: bool, counter: int) -> int {
    dir_code(dir) + 4 * bit(powered) + 8 * min_int(counter, 31)
}

pub open spec fn spec_encode_barrel(strength: int) -> int {
    min_int(strength, 15)
}

// ── Fields read back from packed data ──
pub open spec fn field(data: u16, unit: int, count: int) -> int {
    (data as int / unit) % count
}

pub open spec fn flag(data: u16, unit: int) -> bool {
    field(data, unit, 2) == 1
}

pub open spec fn spec_decode_dir(data: u16) -> Direction {
    dir_of_code(field(data, 1, 4))
}

pub open spec fn spec_repeater_delay(data: u16) -> int {
    field(data, 4, 4)
}

pub open spec fn spec_repeater_locked(data: u16) -> bool {
    flag(data, 16)
}

pub open spec fn spec_repeater_powered(data: u16) -> bool {
    flag(data, 32)
}

pub open spec fn spec_repeater_counter(data: u16) -> int {
    field(data, 64, 8)
}

pub open spec fn spec_comparator_mode(data: u16) -> ComparatorMode {
    if flag(data, 4) {
        ComparatorMode::Subtract
    } else {
        ComparatorMode::Compare
    }
}

pub open spec fn spec_comparator_powered(data: u16) -> bool {
    flag(data, 8)
}

pub open spec fn spec_lever_powered(data: u16) -> bool {
    flag(data, 4)
}

pub open spec fn spec_button_powered(data: u16) -> bool {
    flag(data, 4)
}

pub open spec fn spec_torch_lit(data: u16) -> bool {
    flag(data, 1)
}

pub open spec fn spec_torch_on_wall(data: u16) -> bool {
    flag(data, 2)
}

pub open spec fn spec_torch_dir(data: u16) -> Direction {
    dir_of_code(field(data, 4, 4))
}

pub open spec fn spec_lamp_lit(data: u16) -> bool {
    flag(data, 1)
}

pub open spec fn spec_button_counter(data: u16) -> int {
    field(data, 8, 32)
}

pub open spec fn spec_barrel_strength(data: u16) -> int {
    field(data, 1, 16)
}

proof fn lemma_field_bits(x: u16)
    by (bit_vector)
    ensures
        x & 3 == x % 4,
        x & 1 == x % 2,
        x & 0xf == x % 16,
        (x >> 1u16) & 1 == (x / 2) % 2,
        (x >> 2u16) & 1 == (x / 4) % 2,
        (x >> 3u16) & 1 == (x / 8) % 2,
        (x >> 4u16) & 1 == (x / 16) % 2,
        (x >> 5u16) & 1 == (x / 32) % 2,
        (x >> 2u16) & 3 == (x / 4) % 4,
        (x >> 6u16) & 7 == (x / 64) % 8,
        (x >> 3u16) & 0x1f == (x / 8) % 32,
        x >> 2u16 == x / 4,
{
}

proof fn lemma_pack_repeater(a: u16, b: u16, c: u16, d: u16, e: u16)
    by (bit_vector)
    requires
        a < 4,
        b < 4,
        c < 2,
        d < 2,
        e < 8,
    ensures
        a | (b << 2u16) | (c << 4u16) | (d << 5u16) | (e << 6u16) == a + 4 * b + 16 * c + 32 * d
            + 64 * e,
{
}

proof fn lemma_pack_comparator(a: u16, b: u16, c: u16)
    by (bit_vector)
    requires
        a < 4,
        b < 2,
        c < 2,
    ensures
        a | (b << 2u16) | (c << 3u16) == a + 4 * b + 8 * c,
{
}

proof fn lemma_pack_lever(a: u16, b: u16)
    by (bit_vector)
    requires
        a < 4,
        b < 2,
    ensures
        a | (b << 2u16) == a + 4 * b,
{
}

proof fn lemma_pack_torch(a: u16, b: u16, c: u16)
    by (bit_vector)
    requires
        a < 2,
        b < 2,
        c < 4,
    ensures
        a | (b << 1u16) | (c << 2u16) == a + 2 * b + 4 * c,
{
}

proof fn lemma_pack_button(a: u16, b: u16, c: u16)
    by (bit_vector)
    requires
        a < 4,
        b < 2,
        c < 32,
    ensures
        a | (b << 2u16) | (c << 3u16) == a + 4 * b + 8 * c,
{
}

fn bool_bit(b: bool) -> (r: u16)
    ensures
        r == bit(b),
{
    if b {
        1
    } else {
        0
    }
}

pub fn encode_dir(d: Direction) -> (r: u16)
    ensures
        r == dir_code(d),
{
    match d {
        Direction::North => 0,
        Direction::South => 1,
        Direction::East => 2,
        Direction::West => 3,
    }
}

pub fn decode_dir(data: u16) -> (r: Direction)
    ensures
        r == spec_decode_dir(data),
{
    proof {
        lemma_field_bits(data);
    }
    match data & DIR_MASK {
        0 => Direction::North,
        1 => Direction::South,
        2 => Direction::East,
        3 => Direction::West,
        _ => Direction::North,
    }
}

pub fn encode_repeater(dir: Direction, delay: u8, locked: bool, powered: bool, counter: u8) -> (r:
    u16)
    ensures
        r == spec_encode_repeater(dir, delay as int, locked, powered, counter as int),
{
    let d: u16 = if delay > REPEATER_MAX_DELAY {
        REPEATER_MAX_DELAY as u16
    } else {
        delay as u16
    };
    let c: u16 = if counter > REPEATER_MAX_COUNTER {
        REPEATER_MAX_COUNTER as u16
    } else {
        counter as u16
    };
    let a = encode_dir(dir);
    let l = bool_bit(locked);
    let p = bool_bit(powered);
    proof {
        lemma_pack_repeater(a, d, l, p, c);
    }
    a | (d << REPEATER_DELAY_SHIFT) | (l << REPEATER_LOCKED_SHIFT) | (p << REPEATER_POWERED_SHIFT)
        | (c << REPEATER_COUNTER_SHIFT)
}

pub fn decode_repeater_dir(data: u16) -> (r: Direction)
    ensures
        r == spec_decode_dir(data),
{
    decode_dir(data)
}

pub fn decode_repeater_delay(data: u16) -> (r: u8)
    ensures
        r == spec_repeater_delay(data),
{
    proof {
        lemma_field_bits(data);
    }
    ((data >> REPEATER_DELAY_SHIFT) & REPEATER_DELAY_MASK as u16) as u8
}

pub fn decode_repeater_locked(data: u16) -> (r: bool)
    ensures
        r == spec_repeater_locked(data),
{
    proof {
        lemma_field_bits(data);
    }
    ((data >> REPEATER_LOCKED_SHIFT) & 1) != 0
}

pub fn decode_repeater_powered(data: u16) -> (r: bool)
    ensures
        r == spec_repeater_powered(data),
{
    proof {
        lemma_field_bits(data);
    }
    ((data >> REPEATER_POWERED_SHIFT) & 1) != 0
}

pub fn decode_repeater_counter(data: u16) -> (r: u8)
    ensures
        r == spec_repeater_counter(data),
{
    proof {
        lemma_field_bits(data);
    }
    ((data >> REPEATER_COUNTER_SHIFT) & REPEATER_COUNTER_MASK as u16) as u8
}

pub fn encode_comparator(dir: Direction, mode: ComparatorMode, powered: bool) -> (r: u16)
    ensures
        r == spec_encode_comparator(dir, mode, powered),
{
    let a = encode_dir(dir);
    let m: u16 = match mode {
        ComparatorMode::Compare => 0,
        ComparatorMode::Subtract => 1,
    };
    let p = bool_bit(powered);
    proof {
        lemma_pack_comparator(a, m, p);
    }
    a | (m << COMPARATOR_MODE_SHIFT) | (p << COMPARATOR_POWERED_SHIFT)
}

pub fn decode_comparator_dir(data: u16) -> (r: Direction)
    ensures
        r == spec_decode_dir(data),
{
    decode_dir(data)
}

pub fn decode_comparator_mode(data: u16) -> (r: ComparatorMode)
    ensures
        r == spec_comparator_mode(data),
{
    proof {
        lemma_field_bits(data);
    }
    if ((data >> COMPARATOR_MODE_SHIFT) & 1) != 0 {
        ComparatorMode::Subtract
    } else {
        ComparatorMode::Compare
    }
}

pub fn decode_comparator_powered(data: u16) -> (r: bool)
    ensures
        r == spec_comparator_powered(data),
{
    proof {
        lemma_field_bits(data);
    }
    ((data >> COMPARATOR_POWERED_SHIFT) & 1) != 0
}

pub fn encode_lever(dir: Direction, powered: bool) -> (r: u16)
    ensures
        r == spec_encode_lever(dir, powered),
{
    let a = encode_dir(dir);
    let p = bool_bit(powered);
    proof {
        lemma_pack_lever(a, p);
    }
    a | (p << LEVER_POWERED_SHIFT)
}

pub fn decode_lever_dir(data: u16) -> (r: Direction)
    ensures
        r == spec_decode_dir(data),
{
    decode_dir(data)
}

pub fn decode_lever_powered(data: u16) -> (r: bool)
    ensures
        r == spec_lever_powered(data),
{
    proof {
        lemma_field_bits(data);
    }
    ((data >> LEVER_POWERED_SHIFT) & 1) != 0
}

/// Whether the powered bit of a button's data is set.
pub fn decode_button_powered(data: u16) -> (r: bool)
    ensures
        r == spec_button_powered(data),
{
    proof {
        lemma_field_bits(data);
    }
    ((data >> BUTTON_POWERED_SHIFT) & 1) != 0
}

pub fn encode_torch(lit: bool, on_wall: bool, dir: Direction) -> (r: u16)
    ensures
        r == spec_encode_torch(lit, on_wall, dir),
{
    let l = bool_bit(lit);
    let w = bool_bit(on_wall);
    let d = encode_dir(dir);
    proof {
        lemma_pack_torch(l, w, d);
    }
    l | (w << 1u16) | (d << TORCH_DIR_SHIFT)
}

pub fn decode_torch_lit(data: u16) -> (r: bool)
    ensures
        r == spec_torch_lit(data),
{
    proof {
        lemma_field_bits(data);
    }
    (data & 1) != 0
}

pub fn decode_torch_on_wall(data: u16) -> (r: bool)
    ensures
        r == spec_torch_on_wall(data),
{
    proof {
        lemma_field_bits(data);
    }
    ((data >> 1u16) & 1) != 0
}

pub fn decode_torch_dir(data: u16) -> (r: Direction)
    ensures
        r == spec_torch_dir(data),
{
    proof {
        lemma_field_bits(data);
        lemma_field_bits(data >> TORCH_DIR_SHIFT);
    }
    decode_dir(data >> TORCH_DIR_SHIFT)
}

pub fn encode_lamp(lit: bool) -> (r: u16)
    ensures
        r == bit(lit),
{
    bool_bit(lit)
}

pub fn decode_lamp_lit(data: u16) -> (r: bool)
    ensures
        r == spec_lamp_lit(data),
{
    proof {
        lemma_field_bits(data);
    }
    (data & 1) != 0
}

pub fn encode_button(dir: Direction, powered: bool, counter: u8) -> (r: u16)
    ensures
        r == spec_encode_button(dir, powered, counter as int),
{
    let a = encode_dir(dir);
    let p = bool_bit(powered);
    let c: u16 = if counter > BUTTON_MAX_COUNTER {
        BUTTON_MAX_COUNTER as u16
    } else {
        counter as u16
    };
    proof {
        lemma_pack_button(a, p, c);
    }
    a | (p << BUTTON_POWERED_SHIFT) | (c << BUTTON_COUNTER_SHIFT)
}

pub fn decode_button_counter(data: u16) -> (r: u8)
    ensures
        r == spec_button_counter(data),
{
    proof {
        lemma_field_bits(data);
    }
    ((data >> BUTTON_COUNTER_SHIFT) & BUTTON_COUNTER_MASK as u16) as u8
}

pub fn encode_barrel(strength: u8) -> (r: u16)
    ensures
        r == spec_encode_barrel(strength as int),
{
    if strength > BARREL_MAX_STRENGTH {
        BARREL_MAX_STRENGTH as u16
    } else {
        strength as u16
    }
}

pub fn decode_barrel_strength(data: u16) -> (r: u8)
    ensures
        r == spec_barrel_strength(data),
{
    proof {
        lemma_field_bits(data);
    }
    (data & BARREL_STRENGTH_MASK) as u8
}

/// Round trip: every field written by `encode_repeater` is read back by the
/// matching decoder; delay and counter are clamped to 3 and 7.
pub proof fn lemma_repeater_roundtrip(dir: Direction, delay: u8, locked: bool, powered: bool, counter: u8)
    ensures
        ({
            let data = spec_encode_repeater(dir, delay as int, locked, powered, counter as int) as u16;
            &&& spec_encode_repeater(dir, delay as int, locked, powered, counter as int) < 512
            &&& spec_decode_dir(data) == dir
            &&& spec_repeater_delay(data) == min_int(delay as int, 3)
            &&& spec_repeater_locked(data) == locked
            &&& spec_repeater_powered(data) == powered
            &&& spec_repeater_counter(data) == min_int(counter as int, 7)
        }),
{
    let a = dir_code(dir);
    let b = min_int(delay as int, 3);
    let c = bit(locked);
    let d = bit(powered);
    let e = min_int(counter as int, 7);
    lemma_unpack5(a, b, c, d, e);
}

proof fn lemma_unpack5(a: int, b: int, c: int, d: int, e: int)
    by (nonlinear_arith)
    requires
        0 <= a < 4,
        0 <= b < 4,
        0 <= c < 2,
        0 <= d < 2,
        0 <= e < 8,
    ensures
        ({
            let v = a + 4 * b + 16 * c + 32 * d + 64 * e;
            &&& 0 <= v < 512
            &&& v % 4 == a
            &&& (v / 4) % 4 == b
            &&& (v / 16) % 2 == c
            &&& (v / 32) % 2 == d
            &&& (v / 64) % 8 == e
        }),
{
}

proof fn lemma_unpack3(a: int, b: int, c: int, wb: int, wc: int)
    by (nonlinear_arith)
    requires
        0 <= a < 4,
        0 <= b < 2,
        0 <= c < wc,
        wb == 4,
        wc == 2 || wc == 32,
    ensures
        ({
            let v = a + 4 * b + 8 * c;
            &&& 0 <= v < 8 * wc
            &&& v % 4 == a
            &&& (v / 4) % 2 == b
            &&& (v / 8) % wc == c
        }),
{
}

/// Round trip for comparators: direction, mode and powered bit are read back.
pub proof fn lemma_comparator_roundtrip(dir: Direction, mode: ComparatorMode, powered: bool)
    ensures
        ({
            let data = spec_encode_comparator(dir, mode, powered) as u16;
            &&& spec_encode_comparator(dir, mode, powered) < 16
            &&& spec_decode_dir(data) == dir
            &&& spec_comparator_mode(data) == mode
            &&& spec_comparator_powered(data) == powered
        }),
{
    lemma_unpack3(dir_code(dir), mode_code(mode), bit(powered), 4, 2);
}

/// Round trip for levers: direction and powered bit are read back.
pub proof fn lemma_lever_roundtrip(dir: Direction, powered: bool)
    ensures
        ({
            let data = spec_encode_lever(dir, powered) as u16;
            &&& spec_encode_lever(dir, powered) < 8
            &&& spec_decode_dir(data) == dir
            &&& spec_lever_powered(data) == powered
        }),
{
    lemma_unpack3(dir_code(dir), bit(powered), 0, 4, 2);
}

/// Round trip for buttons: direction, powered bit and counter (clamped to 31)
/// are read back.
pub proof fn lemma_button_roundtrip(dir: Direction, powered: bool, counter: u8)
    ensures
        ({
            let data = spec_encode_button(dir, powered, counter as int) as u16;
            &&& spec_encode_button(dir, powered, counter as int) < 256
            &&& spec_decode_dir(data) == dir
            &&& spec_button_powered(data) == powered
            &&& spec_button_counter(data) == min_int(counter as int, 31)
        }),
{
    lemma_unpack3(dir_code(dir), bit(powered), min_int(counter as int, 31), 4, 32);
}

proof fn lemma_unpack_torch(a: int, b: int, c: int)
    by (nonlinear_arith)
    requires
        0 <= a < 2,
        0 <= b < 2,
        0 <= c < 4,
    ensures
        ({
            let v = a + 2 * b + 4 * c;
            &&& 0 <= v < 16
            &&& v % 2 == a
            &&& (v / 2) % 2 == b
            &&& (v / 4) % 4 == c
        }),
{
}

/// Round trip for torches: lit flag, wall flag and attachment direction are
/// read back.
pub proof fn lemma_torch_roundtrip(lit: bool, on_wall: bool, dir: Direction)
    ensures
        ({
            let data = spec_encode_torch(lit, on_wall, dir) as u16;
            &&& spec_encode_torch(lit, on_wall, dir) < 16
            &&& spec_torch_lit(data) == lit
            &&& spec_torch_on_wall(data) == on_wall
            &&& spec_torch_dir(data) == dir
        }),
{
    lemma_unpack_torch(bit(lit), bit(on_wall), dir_code(dir));
}

/// Round trip for lamps and barrels; barrel strength is clamped to 15.
pub proof fn lemma_lamp_barrel_roundtrip(lit: bool, strength: u8)
    ensures
        spec_lamp_lit(bit(lit) as u16) == lit,
        spec_barrel_strength(spec_encode_barrel(strength as int) as u16) == min_int(strength as int, 15),
        spec_decode_dir(dir_code(Direction::North) as u16) == Direction::North,
{
}

/// Round trip for directions alone.
pub proof fn lemma_dir_roundtrip(d: Direction)
    ensures
        spec_decode_dir(dir_code(d) as u16) == d,
{
}

/// One grid cell: what it is, the power it carries, and its packed state.
#[derive(Debug, Clone, Copy, PartialEq, Eq, Structural)]
pub struct Block {
    pub id: BlockId,
    pub power: u8,
    pub data: u16,
}

pub open spec fn plain(id: BlockId) -> Block {
    Block { id, power: 0, data: 0 }
}

pub open spec fn with_data(id: BlockId, data: int) -> Block {
    Block { id, power: 0, data: data as u16 }
}

pub open spec fn spec_display_name(id: BlockId) -> Seq<char> {
    match id {
        BlockId::Air => "Air"@,
        BlockId::SolidBlock => "Block"@,
        BlockId::RedstoneWire => "Wire"@,
        BlockId::RedstoneTorch => "Torch"@,
        BlockId::RedstoneBlock => "Redstone Block"@,
        BlockId::Repeater => "Repeater"@,
        BlockId::Comparator => "Comparator"@,
        BlockId::Lever => "Lever"@,
        BlockId::Button => "Button"@,
        BlockId::RedstoneLamp => "Lamp"@,
        BlockId::Target => "Target"@,
        BlockId::Barrel => "Barrel"@,
    }
}

impl Block {
    pub fn new(id: BlockId) -> (r: Self)
        ensures
            r == plain(id),
    {
        Block { id, power: 0, data: 0 }
    }

    pub fn air() -> (r: Self)
        ensures
            r == plain(BlockId::Air),
    {
        Block::new(BlockId::Air)
    }

    pub fn solid() -> (r: Self)
        ensures
            r == plain(BlockId::SolidBlock),
    {
        Block::new(BlockId::SolidBlock)
    }

    pub fn wire() -> (r: Self)
        ensures
            r == plain(BlockId::RedstoneWire),
    {
        Block::new(BlockId::RedstoneWire)
    }

    pub fn redstone_block() -> (r: Self)
        ensures
            r == plain(BlockId::RedstoneBlock),
    {
        Block::new(BlockId::RedstoneBlock)
    }

    pub fn lamp() -> (r: Self)
        ensures
            r == plain(BlockId::RedstoneLamp),
    {
        Block::new(BlockId::RedstoneLamp)
    }

    pub fn torch(lit: bool, on_wall: bool, dir: Direction) -> (r: Self)
        ensures
            r == with_data(BlockId::RedstoneTorch, spec_encode_torch(lit, on_wall, dir)),
    {
        Block { id: BlockId::RedstoneTorch, power: 0, data: encode_torch(lit, on_wall, dir) }
    }

    pub fn repeater(dir: Direction, delay: u8, locked: bool, powered: bool) -> (r: Self)
        ensures
            r == with_data(
                BlockId::Repeater,
                spec_encode_repeater(dir, delay as int, locked, powered, 0),
            ),
    {
        Block { id: BlockId::Repeater, power: 0, data: encode_repeater(dir, delay, locked, powered, 0) }
    }

    pub fn comparator(dir: Direction, mode: ComparatorMode, powered: bool) -> (r: Self)
        ensures
            r == with_data(BlockId::Comparator, spec_encode_comparator(dir, mode, powered)),
    {
        Block { id: BlockId::Comparator, power: 0, data: encode_comparator(dir, mode, powered) }
    }

    pub fn lever(dir: Direction, powered: bool) -> (r: Self)
        ensures
            r == with_data(BlockId::Lever, spec_encode_lever(dir, powered)),
    {
        Block { id: BlockId::Lever, power: 0, data: encode_lever(dir, powered) }
    }

    /// A button; a pressed button starts its release countdown at 20 ticks.
    pub fn button(dir: Direction, powered: bool) -> (r: Self)
        ensures
            r == with_data(
                BlockId::Button,
                spec_encode_button(dir, powered, if powered { 20 } else { 0 }),
            ),
    {
        let counter = if powered {
            BUTTON_DEFAULT_TICKS
        } else {
            0u8
        };
        Block { id: BlockId::Button, power: 0, data: encode_button(dir, powered, counter) }
    }

    pub fn target() -> (r: Self)
        ensures
            r == plain(BlockId::Target),
    {
        Block { id: BlockId::Target, power: 0, data: 0 }
    }

    pub fn barrel(strength: u8) -> (r: Self)
        ensures
            r == with_data(BlockId::Barrel, spec_encode_barrel(strength as int)),
    {
        Block { id: BlockId::Barrel, power: 0, data: encode_barrel(strength) }
    }

    pub fn display_name(&self) -> (r: &'static str)
        ensures
            r@ == spec_display_name(self.id),
    {
        match self.id {
            BlockId::Air => "Air",
            BlockId::SolidBlock => "Block",
            BlockId::RedstoneWire => "Wire",
            BlockId::RedstoneTorch => "Torch",
            BlockId::RedstoneBlock => "Redstone Block",
            BlockId::Repeater => "Repeater",
            BlockId::Comparator => "Comparator",
            BlockId::Lever => "Lever",
            BlockId::Button => "Button",
            BlockId::RedstoneLamp => "Lamp",
            BlockId::Target => "Target",
            BlockId::Barrel => "Barrel",
        }
    }
}

} // verus!
