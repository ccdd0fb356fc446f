use vstd::prelude::*;

verus! {

/// One of the four cardinal directions of the grid.
#[derive(PartialEq, Eq, Structural, Clone, Copy, Debug)]
pub enum Dir {
    Up,
    Down,
    Left,
    Right,
}

/// The direction pointing the other way.
pub open spec fn spec_inverse(d: Dir) -> Dir {
    match d {
        Dir::Up => Dir::Down,
        Dir::Down => Dir::Up,
        Dir::Left => Dir::Right,
        Dir::Right => Dir::Left,
    }
}

/// The direction a quarter turn clockwise.
pub open spec fn spec_rotate_right(d: Dir) -> Dir {
    match d {
        Dir::Left => Dir::Up,
        Dir::Up => Dir::Right,
        Dir::Right => Dir::Down,
        Dir::Down => Dir::Left,
    }
}

impl Dir {
    pub fn inverse(&self) -> (r: Dir)
        ensures
            r == spec_inverse(*self),
            r != *self,
            spec_inverse(r) == *self,
    {
        match self {
            Dir::Up => Dir::Down,
            Dir::Down => Dir::Up,
            Dir::Left => Dir::Right,
            Dir::Right => Dir::Left,
        }
    }

    pub fn rotate_right(&self) -> (r: Dir)
        ensures
            r == spec_rotate_right(*self),
            r != *self,
            r != spec_inverse(*self),
    {
        match self {
            Dir::Left => Dir::Up,
            Dir::Up => Dir::Right,
            Dir::Right => Dir::Down,
            Dir::Down => Dir::Left,
        }
    }
}

/// A cell of the unbounded grid plane. The row comes first, so the derived
/// order is row-major.
#[derive(PartialEq, Eq, Structural, Clone, Copy, Debug, Hash, PartialOrd, Ord)]
pub struct NodeCoord {
    pub y: isize,
    pub x: isize,
}

/// The cell next to `c` in direction `d`, in unbounded integers.
pub open spec fn spec_neighbor(c: (int, int), d: Dir) -> (int, int) {
    match d {
        Dir::Up => (c.0, c.1 - 1),
        Dir::Down => (c.0, c.1 + 1),
        Dir::Left => (c.0 - 1, c.1),
        Dir::Right => (c.0 + 1, c.1),
    }
}

/// Row-major order: `y` first, then `x`.
pub open spec fn coord_lt(a: NodeCoord, b: NodeCoord) -> bool {
    a.y < b.y || (a.y == b.y && a.x < b.x)
}

impl NodeCoord {
    pub open spec fn view(self) -> (int, int) {
        (self.x as int, self.y as int)
    }

    /// Whether the neighbour in direction `d` is representable.
    pub open spec fn has_neighbor(self, d: Dir) -> bool {
        let n = spec_neighbor(self@, d);
        isize::MIN <= n.0 <= isize::MAX && isize::MIN <= n.1 <= isize::MAX
    }

    pub fn at(x: isize, y: isize) -> (r: NodeCoord)
        ensures
            r.x == x,
            r.y == y,
    {
        NodeCoord { x, y }
    }

    /// The adjacent cell in direction `direction`; `None` at the edge of the
    /// representable plane.
    pub fn neighbor(self, direction: Dir) -> (r: Option<NodeCoord>)
        ensures
            r is Some <==> self.has_neighbor(direction),
            r is Some ==> r->0@ == spec_neighbor(self@, direction),
    {
        let NodeCoord { x, y } = self;
        match direction {
            Dir::Up => if y > isize::MIN {
                Some(NodeCoord { x, y: y - 1 })
            } else {
                None
            },
            Dir::Down => if y < isize::MAX {
                Some(NodeCoord { x, y: y + 1 })
            } else {
                None
            },
            Dir::Left => if x > isize::MIN {
                Some(NodeCoord { x: x - 1, y })
            } else {
                None
            },
            Dir::Right => if x < isize::MAX {
                Some(NodeCoord { x: x + 1, y })
            } else {
                None
            },
        }
    }

    /// The key under which cells are ordered: row first, then column.
    pub fn order_key(&self) -> (r: (isize, isize))
        ensures
            r == (self.y, self.x),
    {
        (self.y, self.x)
    }
}

} // verus!
