//! Commonly used special tiles.

use vstd::prelude::*;
use crate::point::{Point, adjacent4};
use crate::vfx::Glyph;
use crate::world::{StepEffect, Tile};

verus! {

/// The arrow drawn for each orthogonal direction, in the canonical order.
pub open spec fn arrow_of(i: int) -> char {
    if i == 0 {
        '\u{2193}'
    } else if i == 1 {
        '\u{2190}'
    } else if i == 2 {
        '\u{2191}'
    } else {
        '\u{2192}'
    }
}

/// A floor tile that is not special.
pub open spec fn plain_floor(revealed: bool) -> Tile {
    Tile {
        empt: false,
        blocking: false,
        revealed,
        ch: None,
        door: None,
        locked: None,
        slippery: false,
        step_effect: None,
    }
}

/// A conveyor that pushes whatever steps on it in direction `disp`, one of
/// the four orthogonal unit offsets; drawn as an arrow in colour `clr`.
pub fn create_conveyor(disp: Point, revealed: bool, clr: crossterm::style::Color) -> (r: Tile)
    requires
        adjacent4().contains(disp),
    ensures
        exists|i: int| 0 <= i < 4 && adjacent4()[i] == disp && r == (Tile {
            ch: Some(Glyph::with_spec(arrow_of(i), clr)),
            step_effect: Some(StepEffect::Conveyor(disp)),
            ..plain_floor(revealed)
        }),
{
    let arrow = if disp.x == 0 && disp.y == 1 {
        '\u{2193}'
    } else if disp.x == -1 && disp.y == 0 {
        '\u{2190}'
    } else if disp.x == 0 && disp.y == -1 {
        '\u{2191}'
    } else {
        '\u{2192}'
    };
    let r = Tile {
        empt: false,
        blocking: false,
        revealed,
        ch: Some(Glyph::with(arrow, clr)),
        door: None,
        locked: None,
        slippery: false,
        step_effect: Some(StepEffect::Conveyor(disp)),
    };
    proof {
        let i: int = if disp.x == 0 && disp.y == 1 {
            0
        } else if disp.x == -1 && disp.y == 0 {
            1
        } else if disp.x == 0 && disp.y == -1 {
            2
        } else {
            3
        };
        assert(adjacent4()[i] == disp);
    }
    r
}

/// The exit of a floor, drawn as `>` in colour `clr`.
pub fn get_exit(revealed: bool, clr: crossterm::style::Color) -> (r: Tile)
    ensures
        r == (Tile { ch: Some(Glyph::with_spec('>', clr)), step_effect: Some(StepEffect::Exit), ..plain_floor(revealed) }),
{
    Tile {
        empt: false,
        blocking: false,
        revealed,
        ch: Some(Glyph::with('>', clr)),
        door: None,
        locked: None,
        slippery: false,
        step_effect: Some(StepEffect::Exit),
    }
}

/// A key of kind `key_id` lying on the floor, drawn in colour `clr`.
pub fn get_key(revealed: bool, key_id: u32, clr: crossterm::style::Color) -> (r: Tile)
    ensures
        r == (Tile {
            ch: Some(Glyph::with_spec('\u{26b7}', clr)),
            step_effect: Some(StepEffect::Key(key_id)),
            ..plain_floor(revealed)
        }),
{
    Tile {
        empt: false,
        blocking: false,
        revealed,
        ch: Some(Glyph::with('\u{26b7}', clr)),
        door: None,
        locked: None,
        slippery: false,
        step_effect: Some(StepEffect::Key(key_id)),
    }
}

/// A door locked until a key of kind `key_id` is used on it, drawn in colour `clr`.
pub fn get_locked_door(revealed: bool, key_id: u32, clr: crossterm::style::Color) -> (r: Tile)
    ensures
        r == (Tile {
            ch: Some(Glyph::with_spec('\u{256c}', clr)),
            blocking: true,
            locked: Some(key_id),
            ..plain_floor(revealed)
        }),
{
    Tile {
        empt: false,
        blocking: true,
        revealed,
        ch: Some(Glyph::with('\u{256c}', clr)),
        door: None,
        locked: Some(key_id),
        slippery: false,
        step_effect: None,
    }
}

} // verus!
