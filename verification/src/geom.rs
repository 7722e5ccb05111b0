use vstd::prelude::*;

verus! {

/// Half the side length of the square hit box drawn around a port's center.
pub const PORT_HALF_EXTENT: i64 = 5;

/// A screen position or a per-frame displacement, in integer screen units.
#[derive(Clone, Copy, PartialEq, Eq, Structural, Debug)]
pub struct Pos {
    pub x: i64,
    pub y: i64,
}

/// Addition clamped into `i64`: screen coordinates pin against the edge of the
/// representable range instead of wrapping.
pub open spec fn sat_add_spec(a: int, b: int) -> int {
    if a + b > i64::MAX as int {
        i64::MAX as int
    } else if a + b < i64::MIN as int {
        i64::MIN as int
    } else {
        a + b
    }
}

/// Subtraction clamped into `i64`.
pub open spec fn sat_sub_spec(a: int, b: int) -> int {
    sat_add_spec(a, -b)
}

pub fn sat_add(a: i64, b: i64) -> (r: i64)
    ensures
        r as int == sat_add_spec(a as int, b as int),
{
    if b >= 0 {
        if a > i64::MAX - b {
            i64::MAX
        } else {
            a + b
        }
    } else {
        if a < i64::MIN - b {
            i64::MIN
        } else {
            a + b
        }
    }
}

impl Pos {
    /// The position shifted by a displacement, each axis clamped into `i64`.
    pub open spec fn shifted_spec(self, d: Pos) -> Pos {
        (Pos {
            x: sat_add_spec(self.x as int, d.x as int) as i64,
            y: sat_add_spec(self.y as int, d.y as int) as i64,
        })
    }

    pub fn shifted(self, d: Pos) -> (r: Pos)
        ensures
            r == self.shifted_spec(d),
    {
        Pos { x: sat_add(self.x, d.x), y: sat_add(self.y, d.y) }
    }

    /// The position shifted back by a displacement (used to undo the pan
    /// offset when placing a new node at a cursor position).
    pub open spec fn shifted_back_spec(self, d: Pos) -> Pos {
        (Pos {
            x: sat_sub_spec(self.x as int, d.x as int) as i64,
            y: sat_sub_spec(self.y as int, d.y as int) as i64,
        })
    }

    pub fn shifted_back(self, d: Pos) -> (r: Pos)
        ensures
            r == self.shifted_back_spec(d),
    {
        let x = if d.x == i64::MIN {
            sat_add(sat_add(self.x, i64::MAX), 1)
        } else {
            sat_add(self.x, -d.x)
        };
        let y = if d.y == i64::MIN {
            sat_add(sat_add(self.y, i64::MAX), 1)
        } else {
            sat_add(self.y, -d.y)
        };
        Pos { x, y }
    }

    /// Whether the displacement is exactly zero on both axes.
    pub fn is_zero(self) -> (r: bool)
        ensures
            r == (self.x == 0 && self.y == 0),
    {
        self.x == 0 && self.y == 0
    }
}

/// Whether the cursor falls inside the square hit box around a port center.
pub open spec fn port_hit_spec(port: Pos, cursor: Pos) -> bool {
    &&& port.x - PORT_HALF_EXTENT <= cursor.x <= port.x + PORT_HALF_EXTENT
    &&& port.y - PORT_HALF_EXTENT <= cursor.y <= port.y + PORT_HALF_EXTENT
}

pub fn port_hit(port: Pos, cursor: Pos) -> (r: bool)
    ensures
        r == port_hit_spec(port, cursor),
{
    let px = port.x as i128;
    let py = port.y as i128;
    let cx = cursor.x as i128;
    let cy = cursor.y as i128;
    let h = PORT_HALF_EXTENT as i128;
    px - h <= cx && cx <= px + h && py - h <= cy && cy <= py + h
}

} // verus!
