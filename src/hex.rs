use vstd::prelude::*;

verus! {

/// Axial coordinate of a cell of the hexagonal grid.
#[derive(Clone, Copy, Debug, PartialEq, Eq, Structural)]
pub struct Hex {
    pub x: i32,
    pub y: i32,
}

pub open spec fn abs(v: int) -> int {
    if v < 0 {
        -v
    } else {
        v
    }
}

/// Number of steps between two cells: the largest of the three cube-coordinate
/// differences.
pub open spec fn hex_distance(a: Hex, b: Hex) -> int {
    let dx = a.x - b.x;
    let dy = a.y - b.y;
    let m = if abs(dx) < abs(dy) {
        abs(dy)
    } else {
        abs(dx)
    };
    if m < abs(dx + dy) {
        abs(dx + dy)
    } else {
        m
    }
}

/// Offsets `(dx, dy)` of the enumeration that come before `(a, b)`:
/// column by column, and upward inside a column.
pub open spec fn offset_before(dx: int, dy: int, a: int, b: int) -> bool {
    dx < a || (dx == a && dy < b)
}

/// Every cell within `radius` steps of `center`, `center` included, each one
/// once, column by column in a fixed order.
pub fn cells_within(center: Hex, radius: u32) -> (cells: Vec<Hex>)
    ensures
        cells@.no_duplicates(),
        forall|h: Hex| #[trigger] cells@.contains(h) <==> hex_distance(h, center) <= radius,
{
    let r: i64 = radius as i64;
    let cx: i64 = center.x as i64;
    let cy: i64 = center.y as i64;
    let mut cells: Vec<Hex> = Vec::new();
    let mut dx: i64 = -r;
    while dx <= r
        invariant
            r == radius,
            cx == center.x,
            cy == center.y,
            -r <= dx <= r + 1,
            cells@.no_duplicates(),
            forall|h: Hex|
                #[trigger] cells@.contains(h) <==> (hex_distance(h, center) <= r && h.x - cx
                    < dx),
        decreases r + 1 - dx,
    {
        let lo: i64 = if -r > -dx - r {
            -r
        } else {
            -dx - r
        };
        let hi: i64 = if r < r - dx {
            r
        } else {
            r - dx
        };
        let mut dy: i64 = lo;
        while dy <= hi
            invariant
                r == radius,
                cx == center.x,
                cy == center.y,
                -r <= dx <= r,
                lo >= -r,
                lo >= -dx - r,
                lo == -r || lo == -dx - r,
                hi <= r,
                hi <= r - dx,
                hi == r || hi == r - dx,
                lo <= dy <= hi + 1,
                cells@.no_duplicates(),
                forall|h: Hex|
                    #[trigger] cells@.contains(h) <==> (hex_distance(h, center) <= r
                        && offset_before(h.x - cx, h.y - cy, dx as int, dy as int)),
            decreases hi + 1 - dy,
        {
            let x: i64 = cx + dx;
            let y: i64 = cy + dy;
            if i32::MIN as i64 <= x && x <= i32::MAX as i64 && i32::MIN as i64 <= y && y
                <= i32::MAX as i64 {
                let h = Hex { x: x as i32, y: y as i32 };
                let ghost prev = cells@;
                proof {
                    assert(!prev.contains(h));
                }
                cells.push(h);
                proof {
                    assert forall|g: Hex|
                        #[trigger] cells@.contains(g) <==> (hex_distance(g, center) <= r
                            && offset_before(g.x - cx, g.y - cy, dx as int, dy + 1)) by {
                        assert(cells@ == prev.push(h));
                        if g == h {
                            assert(cells@[prev.len() as int] == h);
                        } else {
                            assert(cells@.contains(g) ==> prev.contains(g)) by {
                                if cells@.contains(g) {
                                    let k = choose|k: int| 0 <= k < cells@.len() && cells@[k] == g;
                                    assert(k < prev.len());
                                    assert(prev[k] == g);
                                }
                            }
                            assert(prev.contains(g) ==> cells@.contains(g)) by {
                                if prev.contains(g) {
                                    let k = choose|k: int| 0 <= k < prev.len() && prev[k] == g;
                                    assert(cells@[k] == g);
                                }
                            }
                        }
                    }
                }
            } else {
                proof {
                    assert forall|g: Hex|
                        #[trigger] cells@.contains(g) <==> (hex_distance(g, center) <= r
                            && offset_before(g.x - cx, g.y - cy, dx as int, dy + 1)) by {
                        if g.x - cx == dx && g.y - cy == dy {
                        }
                    }
                }
            }
            dy = dy + 1;
        }
        proof {
            assert forall|g: Hex|
                #[trigger] cells@.contains(g) <==> (hex_distance(g, center) <= r && g.x - cx < dx
                    + 1) by {
                if g.x - cx == dx && hex_distance(g, center) <= r {
                    assert(lo <= g.y - cy <= hi);
                }
            }
        }
        dx = dx + 1;
    }
    proof {
        assert forall|g: Hex|
            #[trigger] cells@.contains(g) <==> hex_distance(g, center) <= radius by {
            if hex_distance(g, center) <= r {
                assert(g.x - cx <= r);
            }
        }
    }
    cells
}

} // verus!
