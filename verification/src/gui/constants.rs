//! Pixel geometry of the module grid, and the palette.

use vstd::prelude::*;

verus! {

/// Pixels of padding between grid squares.
pub const GRID_P: i32 = 8;

/// Number of pixels a single grid square takes.
pub const GRID_1: i32 = 20;

/// Space used by 2 grid squares.
pub const GRID_2: i32 = GRID_1 * 2 + GRID_P;

/// Space used by 1 fat grid square.
pub const FATGRID_1: i32 = GRID_1 + GRID_P * 2;

/// Space used by 2 fat grid squares.
pub const FATGRID_2: i32 = GRID_1 * 2 + GRID_P * 3;

pub const KNOB_OUTSIDE_SPACE: i32 = 1;

pub const KNOB_INSIDE_SPACE: i32 = 6;

pub const KNOB_AUTOMATION_SPACE: i32 = 17;

pub const KNOB_LANE_GAP: i32 = 1;

pub const KNOB_MAX_LANE_SIZE: i32 = 4;

pub const KNOB_MENU_LANE_SIZE: i32 = 16;

pub const KNOB_MENU_KNOB_OR: i32 = 60;

pub const KNOB_MENU_KNOB_IR: i32 = 40;

pub const KNOB_MENU_LANE_GAP: i32 = 2;

pub const MODULE_CORNER_SIZE: i32 = 4;

pub const MODULE_IO_TAB_SIZE: i32 = GRID_1;

/// Width of the area dedicated to input or output on each module.
pub const MODULE_IO_WIDTH: i32 = MODULE_IO_TAB_SIZE + GRID_P;

/// Edge length of an input or output jack.
pub const JACK_SIZE: i32 = GRID_1;

pub const COLOR_DEBUG: (u8, u8, u8) = (0xFF, 0x00, 0xFF);

pub const COLOR_BG: (u8, u8, u8) = (0x12, 0x15, 0x20);

pub const COLOR_SURFACE: (u8, u8, u8) = (0x48, 0x52, 0x5F);

pub const COLOR_IO_AREA: (u8, u8, u8) = (0x2F, 0x43, 0x4F);

pub const COLOR_KNOB: (u8, u8, u8) = (0xFF, 0x00, 0x22);

pub const COLOR_AUTOMATION: (u8, u8, u8) = (0xC7, 0xD5, 0xE8);

pub const COLOR_AUTOMATION_FOCUSED: (u8, u8, u8) = (0x54, 0xBD, 0xFF);

pub const COLOR_TEXT: (u8, u8, u8) = (0xFF, 0xFF, 0xFF);

/// Pixels taken by `num_spaces` grid tiles with padding between each pair.
pub open spec fn grid_px(num_spaces: int) -> int {
    20 * num_spaces + 8 * (num_spaces - 1)
}

/// Pixels taken by `num_spaces` grid tiles with padding around each of them.
pub open spec fn fatgrid_px(num_spaces: int) -> int {
    20 * num_spaces + 8 * (num_spaces + 1)
}

/// Pixel at which grid cell `index` begins.
pub open spec fn coord_px(index: int) -> int {
    20 * index + 8 * (index + 1)
}

/// Pixel at which fat grid cell `index` begins.
pub open spec fn fatcoord_px(index: int) -> int {
    20 * index + 8 * index
}

/// Computes the amount of space (in pixels) taken by the given number of grid
/// tiles, with padding between each tile.
pub fn grid(num_spaces: i32) -> (px: i32)
    requires
        i32::MIN <= grid_px(num_spaces as int) <= i32::MAX,
    ensures
        px == grid_px(num_spaces as int),
{
    GRID_1 * num_spaces + GRID_P * (num_spaces - 1)
}

/// Like `grid`, but returns the amount of space used including extra outside
/// padding. Use alongside `fatcoord`.
pub fn fatgrid(num_spaces: i32) -> (px: i32)
    requires
        i32::MIN <= fatgrid_px(num_spaces as int) <= i32::MAX,
    ensures
        px == fatgrid_px(num_spaces as int),
{
    GRID_1 * num_spaces + GRID_P * (num_spaces + 1)
}

/// Computes the coordinate where the provided grid cell begins. For example, 0
/// gives `GRID_P` and 1 gives `GRID_1 + GRID_P * 2`.
pub fn coord(index: i32) -> (px: i32)
    requires
        i32::MIN <= coord_px(index as int) <= i32::MAX,
    ensures
        px == coord_px(index as int),
{
    GRID_1 * index + GRID_P * (index + 1)
}

/// Like `coord`, but allows space for extra padding. Use alongside `fatgrid`.
pub fn fatcoord(index: i32) -> (px: i32)
    requires
        i32::MIN <= fatcoord_px(index as int) <= i32::MAX,
    ensures
        px == fatcoord_px(index as int),
{
    GRID_1 * index + GRID_P * index
}

/// Splits a `0xRRGGBB` colour into its three channels.
pub fn hex_color(hex: u32) -> (rgb: (u8, u8, u8))
    ensures
        rgb.0 == (hex / 0x1_0000) % 0x100,
        rgb.1 == (hex / 0x100) % 0x100,
        rgb.2 == hex % 0x100,
{
    let r: u32 = (hex >> 16) & 0xFF;
    let g: u32 = (hex >> 8) & 0xFF;
    let b: u32 = hex & 0xFF;
    assert(r == (hex / 0x1_0000) % 0x100 && r < 0x100) by (bit_vector)
        requires
            r == (hex >> 16) & 0xFF,
    ;
    assert(g == (hex / 0x100) % 0x100 && g < 0x100) by (bit_vector)
        requires
            g == (hex >> 8) & 0xFF,
    ;
    assert(b == hex % 0x100 && b < 0x100) by (bit_vector)
        requires
            b == hex & 0xFF,
    ;
    (r as u8, g as u8, b as u8)
}

} // verus!
