//! Table layout, in thousandths of a pixel.
//!
//! The four seats are anchored to the window edges as fractions of the
//! window size; a hand lays its cards out left to right; each seat owns one
//! slot in the central trick zone.

use vstd::prelude::*;

use crate::geom::{COORD_LIMIT, Vec2i};

verus! {

/// Horizontal spacing between cards of a hand: 50 pixels.
pub const CARD_SPACING: i64 = 50000;

/// Distance of a trick-zone slot from the table center: 60 pixels.
pub const TRICK_OFFSET: i64 = 60000;

/// Where a seat's hand is anchored, for a window of size `w` by `h`.
pub open spec fn seat_anchor_spec(seat: u8, w: i64, h: i64) -> Vec2i {
    if seat == 0 {
        Vec2i { x: (-(w * 18 / 100)) as i64, y: (-(h * 35 / 100)) as i64 }
    } else if seat == 1 {
        Vec2i { x: (-(w * 44 / 100)) as i64, y: (h * 30 / 100) as i64 }
    } else if seat == 2 {
        Vec2i { x: (w * 18 / 100) as i64, y: (h * 35 / 100) as i64 }
    } else {
        Vec2i { x: (w * 44 / 100) as i64, y: (-(h * 30 / 100)) as i64 }
    }
}

/// Anchors a seat's hand to the window: the point-of-view hand low left of
/// center, the opposite seat high right, the remaining two on the flanks.
pub fn seat_anchor(seat: u8, w: i64, h: i64) -> (r: Vec2i)
    requires
        seat < 4,
        0 <= w <= COORD_LIMIT,
        0 <= h <= COORD_LIMIT,
    ensures
        r == seat_anchor_spec(seat, w, h),
        r.in_range(),
{
    match seat {
        0 => Vec2i { x: -(w * 18 / 100), y: -(h * 35 / 100) },
        1 => Vec2i { x: -(w * 44 / 100), y: h * 30 / 100 },
        2 => Vec2i { x: w * 18 / 100, y: h * 35 / 100 },
        _ => Vec2i { x: w * 44 / 100, y: -(h * 30 / 100) },
    }
}

/// Resting position of the `i`-th card of a hand, relative to the hand's
/// anchor.
pub open spec fn hand_slot_spec(i: int) -> Vec2i {
    Vec2i { x: (CARD_SPACING * i) as i64, y: 0 }
}

/// Computes the `i`-th hand slot.
pub fn hand_slot(i: usize) -> (r: Vec2i)
    requires
        i < 40,
    ensures
        r == hand_slot_spec(i as int),
        r.in_range(),
{
    Vec2i { x: CARD_SPACING * (i as i64), y: 0 }
}

/// The trick-zone slot owned by a seat, relative to the table center.
pub open spec fn trick_slot_spec(seat: u8) -> Vec2i {
    if seat == 0 {
        Vec2i { x: 0, y: (-TRICK_OFFSET) as i64 }
    } else if seat == 1 {
        Vec2i { x: (-TRICK_OFFSET) as i64, y: 0 }
    } else if seat == 2 {
        Vec2i { x: 0, y: TRICK_OFFSET }
    } else {
        Vec2i { x: TRICK_OFFSET, y: 0 }
    }
}

/// Computes a seat's trick-zone slot.
pub fn trick_slot(seat: u8) -> (r: Vec2i)
    requires
        seat < 4,
    ensures
        r == trick_slot_spec(seat),
        r.in_range(),
{
    match seat {
        0 => Vec2i { x: 0, y: -TRICK_OFFSET },
        1 => Vec2i { x: -TRICK_OFFSET, y: 0 },
        2 => Vec2i { x: 0, y: TRICK_OFFSET },
        _ => Vec2i { x: TRICK_OFFSET, y: 0 },
    }
}

} // verus!
