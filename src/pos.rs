use vstd::prelude::*;

verus! {

/// A grid position: two integer coordinates, ordered and hashable so that it
/// can key a map.
#[derive(Debug, Clone, Copy, PartialEq, Eq, Structural, PartialOrd, Ord, Hash)]
pub struct Position {
    pub x: i32,
    pub y: i32,
}

/// A displacement between grid positions.
#[derive(Debug, Clone, Copy, PartialEq, Eq, Structural, Hash)]
pub struct Offset {
    pub x: i32,
    pub y: i32,
}

/// The eight unit displacements, in the order up, down, left, right,
/// left-up, right-up, left-down, right-down (y grows downwards).
pub open spec fn direction(i: int) -> Offset {
    if i == 0 {
        Offset { x: 0i32, y: -1i32 }
    } else if i == 1 {
        Offset { x: 0i32, y: 1i32 }
    } else if i == 2 {
        Offset { x: -1i32, y: 0i32 }
    } else if i == 3 {
        Offset { x: 1i32, y: 0i32 }
    } else if i == 4 {
        Offset { x: -1i32, y: -1i32 }
    } else if i == 5 {
        Offset { x: 1i32, y: -1i32 }
    } else if i == 6 {
        Offset { x: -1i32, y: 1i32 }
    } else {
        Offset { x: 1i32, y: 1i32 }
    }
}

/// `p + o` as mathematical integers.
pub open spec fn shifted_xy(p: Position, o: Offset) -> (int, int) {
    (p.x + o.x, p.y + o.y)
}

/// Whether `p + o` is itself a representable position.
pub open spec fn fits_shift(p: Position, o: Offset) -> bool {
    i32::MIN <= p.x + o.x <= i32::MAX && i32::MIN <= p.y + o.y <= i32::MAX
}

/// A position whose eight neighbours are all representable.
pub open spec fn interior(p: Position) -> bool {
    i32::MIN < p.x < i32::MAX && i32::MIN < p.y < i32::MAX
}

/// Squared Euclidean distance between two positions.
pub open spec fn sq_dist(a: Position, b: Position) -> int {
    (a.x - b.x) * (a.x - b.x) + (a.y - b.y) * (a.y - b.y)
}

impl Offset {
    /// The eight unit displacements around a position, see [`direction`].
    pub fn directions() -> (r: [Offset; 8])
        ensures
            forall|i: int| 0 <= i < 8 ==> #[trigger] r@[i] == direction(i),
    {
        [
            Offset { x: 0, y: -1 },
            Offset { x: 0, y: 1 },
            Offset { x: -1, y: 0 },
            Offset { x: 1, y: 0 },
            Offset { x: -1, y: -1 },
            Offset { x: 1, y: -1 },
            Offset { x: -1, y: 1 },
            Offset { x: 1, y: 1 },
        ]
    }
}

impl Position {
    pub fn new(x: i32, y: i32) -> (r: Position)
        ensures
            r.x == x && r.y == y,
    {
        Position { x, y }
    }

    /// `self + o`, or `None` where a coordinate leaves the `i32` range.
    pub fn shifted(self, o: Offset) -> (r: Option<Position>)
        ensures
            match r {
                Some(q) => fits_shift(self, o) && (q.x as int, q.y as int) == shifted_xy(self, o),
                None => !fits_shift(self, o),
            },
    {
        match (self.x.checked_add(o.x), self.y.checked_add(o.y)) {
            (Some(x), Some(y)) => Some(Position { x, y }),
            _ => None,
        }
    }

    /// The eight neighbouring positions, in the order of [`direction`].
    pub fn neighbour(self) -> (r: [Position; 8])
        requires
            interior(self),
        ensures
            forall|i: int|
                0 <= i < 8 ==> (#[trigger] r@[i].x as int, r@[i].y as int) == shifted_xy(
                    self,
                    direction(i),
                ),
    {
        let x = self.x;
        let y = self.y;
        [
            Position { x, y: y - 1 },
            Position { x, y: y + 1 },
            Position { x: x - 1, y },
            Position { x: x + 1, y },
            Position { x: x - 1, y: y - 1 },
            Position { x: x + 1, y: y - 1 },
            Position { x: x - 1, y: y + 1 },
            Position { x: x + 1, y: y + 1 },
        ]
    }

    /// The eight neighbouring positions, each with the displacement that leads to it.
    pub fn neighbour_with_offset(self) -> (r: [(Position, Offset); 8])
        requires
            interior(self),
        ensures
            forall|i: int|
                0 <= i < 8 ==> #[trigger] r@[i].1 == direction(i) && (
                r@[i].0.x as int,
                r@[i].0.y as int,
            ) == shifted_xy(self, direction(i)),
    {
        let p = self.neighbour();
        let d = Offset::directions();
        [
            (p[0], d[0]),
            (p[1], d[1]),
            (p[2], d[2]),
            (p[3], d[3]),
            (p[4], d[4]),
            (p[5], d[5]),
            (p[6], d[6]),
            (p[7], d[7]),
        ]
    }

    /// The position read as a displacement from the origin.
    pub fn offset_from_zero(&self) -> (r: Offset)
        ensures
            r.x == self.x && r.y == self.y,
    {
        Offset { x: self.x, y: self.y }
    }

    /// Squared Euclidean distance to `other`.
    pub fn squared_distance(&self, other: &Position) -> (r: u128)
        ensures
            r == sq_dist(*self, *other),
    {
        let dx: i64 = self.x as i64 - other.x as i64;
        let dy: i64 = self.y as i64 - other.y as i64;
        let ax: u128 = if dx < 0 { (-dx) as u128 } else { dx as u128 };
        let ay: u128 = if dy < 0 { (-dy) as u128 } else { dy as u128 };
        assert(ax * ax <= 0x1_0000_0000u128 * 0x1_0000_0000u128) by (nonlinear_arith)
            requires ax <= 0x1_0000_0000u128;
        assert(ay * ay <= 0x1_0000_0000u128 * 0x1_0000_0000u128) by (nonlinear_arith)
            requires ay <= 0x1_0000_0000u128;
        assert(ax * ax == dx * dx) by (nonlinear_arith)
            requires ax == dx || ax == -dx;
        assert(ay * ay == dy * dy) by (nonlinear_arith)
            requires ay == dy || ay == -dy;
        ax * ax + ay * ay
    }
}

} // verus!
