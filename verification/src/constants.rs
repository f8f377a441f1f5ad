use vstd::prelude::*;

verus! {

// Redstone power
pub const MAX_POWER: u8 = 15;
pub const WIRE_POWER_DECAY: u8 = 1;

// World / chunk
pub const CHUNK_SIZE: usize = 16;
pub const CHUNK_SIZE_I32: i32 = 16;
pub const CHUNK_CELLS: usize = 256;
pub const WORLD_CHUNKS_X: usize = 4;
pub const WORLD_CHUNKS_Y: usize = 4;

// Simulation
pub const MAX_ITERATIONS: usize = 20;
pub const MAX_TICKS_PER_FRAME: u32 = 60;

// Block data encoding (bit-field layout)
// Direction: bits [1:0]
pub const DIR_MASK: u16 = 0x3;

// Repeater: delay[3:2], locked[4], powered[5], counter[8:6]
pub const REPEATER_DELAY_SHIFT: u16 = 2;
pub const REPEATER_DELAY_MASK: u8 = 3;
pub const REPEATER_MAX_DELAY: u8 = 3;
pub const REPEATER_LOCKED_SHIFT: u16 = 4;
pub const REPEATER_POWERED_SHIFT: u16 = 5;
pub const REPEATER_COUNTER_SHIFT: u16 = 6;
pub const REPEATER_COUNTER_MASK: u8 = 7;
pub const REPEATER_MAX_COUNTER: u8 = 7;
pub const REPEATER_DELAY_COUNT: u8 = 4;

// Comparator: mode[2], powered[3]
pub const COMPARATOR_MODE_SHIFT: u16 = 2;
pub const COMPARATOR_POWERED_SHIFT: u16 = 3;

// Lever: powered[2]
pub const LEVER_POWERED_SHIFT: u16 = 2;

// Torch: lit[0], on_wall[1], dir[3:2]
pub const TORCH_DIR_SHIFT: u16 = 2;

// Button: powered[2], counter[7:3]
pub const BUTTON_POWERED_SHIFT: u16 = 2;
pub const BUTTON_COUNTER_SHIFT: u16 = 3;
pub const BUTTON_COUNTER_MASK: u8 = 0x1F;
pub const BUTTON_MAX_COUNTER: u8 = 31;
pub const BUTTON_DEFAULT_TICKS: u8 = 20;

// Barrel: strength[3:0]
pub const BARREL_STRENGTH_MASK: u16 = 0xF;
pub const BARREL_MAX_STRENGTH: u8 = 15;
pub const BARREL_STRENGTH_COUNT: u8 = 16;

pub const TEST_CIRCUIT_OFFSET: i32 = 3;

} // verus!
