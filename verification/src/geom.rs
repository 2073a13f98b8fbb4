//! Fixed-point planar geometry for card movement.
//!
//! Positions are stored in thousandths of a pixel, so that the arrival
//! condition of a movement — "remaining distance no greater than this tick's
//! travel" — and the final snap to the target are exact, with no residual
//! error.

use vstd::prelude::*;

verus! {

/// Coordinate bound: about one million pixels in thousandths of a pixel.
pub const COORD_LIMIT: i64 = 1073741824;

/// A position or displacement in thousandths of a pixel.
#[derive(Clone, Copy, Debug, PartialEq, Eq, Structural)]
pub struct Vec2i {
    pub x: i64,
    pub y: i64,
}

impl Vec2i {
    /// Coordinates the rest of the crate is allowed to hold.
    pub open spec fn in_range(self) -> bool {
        -COORD_LIMIT <= self.x <= COORD_LIMIT && -COORD_LIMIT <= self.y <= COORD_LIMIT
    }
}

/// Squared Euclidean distance between two positions.
pub open spec fn dist2(a: Vec2i, b: Vec2i) -> int {
    (b.x - a.x) * (b.x - a.x) + (b.y - a.y) * (b.y - a.y)
}

/// `m` lies inside the axis-aligned box spanned by `a` and `b`.
pub open spec fn in_box(a: Vec2i, b: Vec2i, m: Vec2i) -> bool {
    &&& (a.x <= m.x <= b.x || b.x <= m.x <= a.x)
    &&& (a.y <= m.y <= b.y || b.y <= m.y <= a.y)
}

/// Taxicab distance between two positions: the sum of the two axis gaps.
pub open spec fn l1_dist(a: Vec2i, b: Vec2i) -> int {
    (if b.x >= a.x {
        b.x - a.x
    } else {
        a.x - b.x
    }) + if b.y >= a.y {
        b.y - a.y
    } else {
        a.y - b.y
    }
}

/// Integer square root: the largest `r` with `r * r <= n`.
pub fn isqrt64(n: u64) -> (r: u64)
    ensures
        r * r <= n < (r + 1) * (r + 1),
{
    let mut lo: u64 = 0;
    let mut hi: u64 = 4294967296;
    proof {
        assert((hi as int) * (hi as int) > n as int) by (nonlinear_arith)
            requires
                hi == 4294967296,
                n < 18446744073709551616,
        ;
    }
    while lo + 1 < hi
        invariant
            lo < hi <= 4294967296,
            (lo as int) * (lo as int) <= n as int,
            (hi as int) * (hi as int) > n as int,
        decreases hi - lo,
    {
        let mid: u64 = lo + (hi - lo) / 2;
        assert(lo < mid < hi);
        proof {
            assert(0 <= (mid as int) * (mid as int) <= 0x10000000000000000) by (nonlinear_arith)
                requires
                    0 <= mid <= 4294967296,
            ;
        }
        let sq: u128 = (mid as u128) * (mid as u128);
        if sq <= n as u128 {
            lo = mid;
        } else {
            hi = mid;
        }
    }
    lo
}

/// One tick of straight-line motion from `pos` toward `target`.
///
/// Returns the new position and whether the mover arrived.  Arrival happens
/// exactly when the remaining distance is no greater than `travel`, and on
/// arrival the position is snapped to the target, exactly.  A step that does
/// not arrive stays inside the box spanned by the old position and the
/// target, so coordinates never leave their range, and it shortens the
/// taxicab distance to the target by at least `travel - 1`: arrival takes a
/// bounded number of ticks, scaled only by travelled distance, never by
/// tick count.
pub fn step_toward(pos: Vec2i, target: Vec2i, travel: i64) -> (r: (Vec2i, bool))
    requires
        pos.in_range(),
        target.in_range(),
        0 <= travel <= COORD_LIMIT,
    ensures
        r.1 <==> dist2(pos, target) <= travel * travel,
        r.1 ==> r.0 == target,
        in_box(pos, target, r.0),
        r.0.in_range(),
        !r.1 ==> l1_dist(r.0, target) + travel <= l1_dist(pos, target) + 1,
{
    let dx: i64 = target.x - pos.x;
    let dy: i64 = target.y - pos.y;
    proof {
        assert(0 <= (dx as int) * (dx as int) <= 0x4000000000000000) by (nonlinear_arith)
            requires
                -0x80000000 <= dx <= 0x80000000,
        ;
        assert(0 <= (dy as int) * (dy as int) <= 0x4000000000000000) by (nonlinear_arith)
            requires
                -0x80000000 <= dy <= 0x80000000,
        ;
        assert(0 <= (travel as int) * (travel as int) <= 0x4000000000000000) by (nonlinear_arith)
            requires
                0 <= travel <= 0x80000000,
        ;
    }
    let d2: u128 = ((dx as i128) * (dx as i128) + (dy as i128) * (dy as i128)) as u128;
    let t2: u128 = (travel as u128) * (travel as u128);
    if d2 <= t2 {
        (target, true)
    } else {
        let d2s: u64 = d2 as u64;
        let dist: u64 = isqrt64(d2s);
        assert(dist >= 1) by {
            assert(d2s >= 1);
            if dist == 0 {
                assert((dist + 1) * (dist + 1) == 1) by (nonlinear_arith)
                    requires
                        dist == 0,
                ;
            }
        }
        let adx: u64 = if dx >= 0 {
            dx as u64
        } else {
            (-dx) as u64
        };
        let ady: u64 = if dy >= 0 {
            dy as u64
        } else {
            (-dy) as u64
        };
        proof {
            assert(0 <= (adx as int) * (travel as int) <= 0x2000000000000000) by (nonlinear_arith)
                requires
                    0 <= adx <= 0x80000000,
                    0 <= travel <= 0x40000000,
            ;
            assert(0 <= (ady as int) * (travel as int) <= 0x2000000000000000) by (nonlinear_arith)
                requires
                    0 <= ady <= 0x80000000,
                    0 <= travel <= 0x40000000,
            ;
            vstd::arithmetic::div_mod::lemma_div_nonincreasing(
                (adx as int) * (travel as int),
                dist as int,
            );
            vstd::arithmetic::div_mod::lemma_div_nonincreasing(
                (ady as int) * (travel as int),
                dist as int,
            );
            vstd::arithmetic::div_mod::lemma_div_pos_is_pos(
                (adx as int) * (travel as int),
                dist as int,
            );
            vstd::arithmetic::div_mod::lemma_div_pos_is_pos(
                (ady as int) * (travel as int),
                dist as int,
            );
        }
        let mx_raw: u64 = (((adx as u128) * (travel as u128)) / (dist as u128)) as u64;
        let my_raw: u64 = (((ady as u128) * (travel as u128)) / (dist as u128)) as u64;
        let mx: i64 = if mx_raw > adx {
            adx as i64
        } else {
            mx_raw as i64
        };
        let my: i64 = if my_raw > ady {
            ady as i64
        } else {
            my_raw as i64
        };
        proof {
            let di = dist as int;
            let ax = adx as int;
            let ay = ady as int;
            let tv = travel as int;
            assert(ax * ax == (dx as int) * (dx as int)) by (nonlinear_arith)
                requires
                    ax == dx as int || ax == -(dx as int),
            ;
            assert(ay * ay == (dy as int) * (dy as int)) by (nonlinear_arith)
                requires
                    ay == dy as int || ay == -(dy as int),
            ;
            assert(d2s as int == ax * ax + ay * ay);
            // travel does not exceed the root of the remaining distance
            assert(tv <= di) by {
                if tv > di {
                    assert(tv * tv >= (di + 1) * (di + 1)) by (nonlinear_arith)
                        requires
                            tv >= di + 1,
                            di >= 0,
                    ;
                }
            }
            // the root is at most the taxicab distance
            assert(di <= ax + ay) by {
                assert((ax + ay) * (ax + ay) >= ax * ax + ay * ay) by (nonlinear_arith)
                    requires
                        ax >= 0,
                        ay >= 0,
                ;
                if di > ax + ay {
                    assert(di * di >= (ax + ay + 1) * (ax + ay + 1) > (ax + ay) * (ax + ay))
                        by (nonlinear_arith)
                        requires
                            di >= ax + ay + 1,
                            ax >= 0,
                            ay >= 0,
                    ;
                }
            }
            let qx = (ax * tv) / di;
            let qy = (ay * tv) / di;
            assert(mx_raw as int == qx && my_raw as int == qy);
            // each axis moves at most the whole gap, so the clamps are idle
            assert(ax * tv <= ax * di && ay * tv <= ay * di) by (nonlinear_arith)
                requires
                    tv <= di,
                    ax >= 0,
                    ay >= 0,
            ;
            vstd::arithmetic::div_mod::lemma_div_is_ordered(ax * tv, ax * di, di);
            vstd::arithmetic::div_mod::lemma_div_is_ordered(ay * tv, ay * di, di);
            vstd::arithmetic::div_mod::lemma_div_multiples_vanish(ax, di);
            vstd::arithmetic::div_mod::lemma_div_multiples_vanish(ay, di);
            assert(qx <= ax && qy <= ay);
            // together the axes cover at least travel - 1
            vstd::arithmetic::div_mod::lemma_fundamental_div_mod(ax * tv, di);
            vstd::arithmetic::div_mod::lemma_fundamental_div_mod(ay * tv, di);
            assert(0 <= (ax * tv) % di < di && 0 <= (ay * tv) % di < di) by {
                vstd::arithmetic::div_mod::lemma_mod_bound(ax * tv, di);
                vstd::arithmetic::div_mod::lemma_mod_bound(ay * tv, di);
            }
            assert(qx + qy >= tv - 1) by (nonlinear_arith)
                requires
                    ax * tv == di * qx + (ax * tv) % di,
                    ay * tv == di * qy + (ay * tv) % di,
                    0 <= (ax * tv) % di < di,
                    0 <= (ay * tv) % di < di,
                    di <= ax + ay,
                    di >= 1,
                    tv >= 0,
            ;
        }
        let nx: i64 = if dx >= 0 {
            pos.x + mx
        } else {
            pos.x - mx
        };
        let ny: i64 = if dy >= 0 {
            pos.y + my
        } else {
            pos.y - my
        };
        (Vec2i { x: nx, y: ny }, false)
    }
}

} // verus!
