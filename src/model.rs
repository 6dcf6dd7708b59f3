use vstd::prelude::*;
use crate::coord::Coord;
use crate::provider::in_area;

verus! {

/// What the sweep knows about one offset (relative to the origin).
pub ghost struct CellModel {
    /// Offset at which the obstacle shadowing this path was first met;
    /// `(0, 0)` when there is none.
    pub obs: (int, int),
    /// Running per-axis error term that tells how far the shadow reaches.
    pub err: (int, int),
    /// The path was absorbed by an opaque predecessor.
    pub ignore: bool,
    /// The cell was reached in this sweep.
    pub visited: bool,
}

/// Scratch state of a sweep: one record per offset.
pub type Scratch = spec_fn((int, int)) -> CellModel;

pub open spec fn abs(v: int) -> int {
    if v < 0 {
        -v
    } else {
        v
    }
}

impl CellModel {
    pub open spec fn blank() -> CellModel {
        CellModel { obs: (0, 0), err: (0, 0), ignore: false, visited: false }
    }

    /// The cell lies in an obstacle's shadow.
    pub open spec fn is_obstacle(self) -> bool {
        (self.err.0 != 0 && self.err.0 <= self.obs.0) || (self.err.1 != 0 && self.err.1
            <= self.obs.1)
    }

    /// The shadow starts here: the cell is the obstacle itself.
    pub open spec fn is_wall(self) -> bool {
        self.err == self.obs
    }

    pub open spec fn is_visible(self) -> bool {
        self.visited && !self.ignore && (!self.is_obstacle() || self.is_wall())
    }

    /// Components stay within what a sweep of range `r` can produce.
    pub open spec fn bounded(self, r: int) -> bool {
        &&& 0 <= self.obs.0 <= r
        &&& 0 <= self.obs.1 <= r
        &&& self.err.0 + self.err.1 == self.obs.0 + self.obs.1
        &&& -r <= self.err.0
        &&& -r <= self.err.1
    }

    /// Shadow handed on from `src` to this cell, one step along x
    /// (`along_x`) or along y.
    pub open spec fn inherit(self, src: CellModel, along_x: bool) -> CellModel {
        if src.obs == (0int, 0int) {
            self
        } else if along_x {
            if src.err.0 > 0 && (self.obs.0 == 0 || (src.err.1 <= 0 && src.obs.1 > 0)) {
                CellModel {
                    obs: src.obs,
                    err: (src.err.0 - src.obs.1, src.err.1 + src.obs.1),
                    ignore: self.ignore,
                    visited: self.visited,
                }
            } else {
                self
            }
        } else {
            if src.err.1 > 0 && (self.obs.1 == 0 || (src.err.0 <= 0 && src.obs.0 > 0)) {
                CellModel {
                    obs: src.obs,
                    err: (src.err.0 + src.obs.0, src.err.1 - src.obs.0),
                    ignore: self.ignore,
                    visited: self.visited,
                }
            } else {
                self
            }
        }
    }

    /// This cell, at offset `t`, after a ray step from `src`; `blocking`
    /// tells whether the map cell under `t` blocks the view.
    pub open spec fn ray_from(self, src: CellModel, t: (int, int), along_x: bool, blocking: bool) -> CellModel {
        let inherited = self.inherit(src, along_x);
        let ignore = (!self.visited || self.ignore) && src.is_obstacle();
        if !ignore && blocking {
            CellModel {
                obs: (abs(t.0), abs(t.1)),
                err: (abs(t.0), abs(t.1)),
                ignore,
                visited: true,
            }
        } else {
            CellModel { obs: inherited.obs, err: inherited.err, ignore, visited: true }
        }
    }
}

/// `s` with the record at `t` replaced by `c`.
pub open spec fn updated(s: Scratch, t: (int, int), c: CellModel) -> Scratch {
    |q: (int, int)| if q == t { c } else { s(q) }
}

/// The `j`-th offset of the ring at Manhattan distance `d`, clockwise from
/// due east (`y` grows downward).
pub open spec fn ring_point(d: int, j: int) -> (int, int) {
    if j < d {
        (d - j, j)
    } else if j < 2 * d {
        (d - j, 2 * d - j)
    } else if j < 3 * d {
        (j - 3 * d, 2 * d - j)
    } else {
        (j - 3 * d, j - 4 * d)
    }
}

/// One computation: the observer, the host map's bounds and walls, and the
/// view range.
pub ghost struct Scene {
    pub origin: (int, int),
    pub area: (Coord, Coord),
    pub walls: Set<Coord>,
    pub range: int,
}

/// Whether offset `p` comes before column `x` of row `y` in row-major order.
pub open spec fn before(p: (int, int), y: int, x: int) -> bool {
    p.1 < y || (p.1 == y && p.0 < x)
}

impl Scene {
    /// The scene of a computation from `origin` with view range `range` on a
    /// map with bounds `area` and blocking cells `walls`.
    pub open spec fn of(origin: Coord, range: int, area: (Coord, Coord), walls: Set<Coord>) -> Scene {
        Scene { origin: origin@, area, walls, range }
    }

    /// Map cells of the window whose record in `s` is visible, among the
    /// offsets before column `x` of row `y`.
    pub open spec fn emitted(self, s: Scratch, y: int, x: int) -> Set<Coord> {
        Set::new(
            |c: Coord|
                in_area(self.area, c@) && self.in_range(self.offset_of(c)) && before(
                    self.offset_of(c),
                    y,
                    x,
                ) && s(self.offset_of(c)).is_visible(),
        )
    }

    /// The offset lies in the square window of the view range.
    pub open spec fn in_range(self, t: (int, int)) -> bool {
        -self.range <= t.0 <= self.range && -self.range <= t.1 <= self.range
    }

    /// The map position of offset `t`.
    pub open spec fn at(self, t: (int, int)) -> (int, int) {
        (self.origin.0 + t.0, self.origin.1 + t.1)
    }

    /// The offset of map cell `c`.
    pub open spec fn offset_of(self, c: Coord) -> (int, int) {
        (c.0 - self.origin.0, c.1 - self.origin.1)
    }

    pub open spec fn in_map(self, t: (int, int)) -> bool {
        in_area(self.area, self.at(t))
    }

    pub open spec fn blocks(self, t: (int, int)) -> bool {
        self.walls.contains(Coord(self.at(t).0 as i32, self.at(t).1 as i32))
    }

    /// A ray step from offset `src` into its neighbour `t`; cells off the
    /// map or outside the window are left alone.
    pub open spec fn apply_ray(self, s: Scratch, t: (int, int), src: (int, int)) -> Scratch {
        if self.in_map(t) && self.in_range(t) {
            updated(s, t, s(t).ray_from(s(src), t, t.0 != src.0, self.blocks(t)))
        } else {
            s
        }
    }

    /// Push the state at `o` to its neighbours farther from the origin.
    pub open spec fn propagate_from(self, s: Scratch, o: (int, int)) -> Scratch {
        if self.in_map(o) && !s(o).ignore {
            let s1 = if o.0 >= 0 {
                self.apply_ray(s, (o.0 + 1, o.1), o)
            } else {
                s
            };
            let s2 = if o.1 >= 0 {
                self.apply_ray(s1, (o.0, o.1 + 1), o)
            } else {
                s1
            };
            let s3 = if o.0 <= 0 {
                self.apply_ray(s2, (o.0 - 1, o.1), o)
            } else {
                s2
            };
            if o.1 <= 0 {
                self.apply_ray(s3, (o.0, o.1 - 1), o)
            } else {
                s3
            }
        } else {
            s
        }
    }

    /// Propagate from the first `n` offsets of ring `d`.
    pub open spec fn sweep_ring(self, s: Scratch, d: int, n: int) -> Scratch
        decreases n,
    {
        if n <= 0 {
            s
        } else {
            self.propagate_from(self.sweep_ring(s, d, n - 1), ring_point(d, n - 1))
        }
    }

    /// Propagate from rings `1..=k` in turn.
    pub open spec fn sweep(self, s: Scratch, k: int) -> Scratch
        decreases k,
    {
        if k <= 0 {
            s
        } else {
            self.sweep_ring(self.sweep(s, k - 1), k, 4 * k)
        }
    }

    /// Blank scratch with the origin reached.
    pub open spec fn start(self) -> Scratch {
        |q: (int, int)|
            if q == (0int, 0int) {
                CellModel { visited: true, ..CellModel::blank() }
            } else {
                CellModel::blank()
            }
    }

    /// After propagating from the origin.
    pub open spec fn seeded(self) -> Scratch {
        self.propagate_from(self.start(), (0, 0))
    }

    /// The scratch state once every ring below the view range was swept.
    pub open spec fn swept(self) -> Scratch {
        self.sweep(self.seeded(), self.range - 1)
    }

    /// Map cell `c` is visible: the origin itself, or a cell of the window
    /// whose final record classifies as visible; in both cases on the map.
    pub open spec fn shows(self, c: Coord) -> bool {
        &&& in_area(self.area, c@)
        &&& c@ == self.origin || (self.in_range(self.offset_of(c)) && self.swept()(
            self.offset_of(c),
        ).is_visible())
    }

    /// The cells that one computation marks visible.
    pub open spec fn fov(self) -> Set<Coord> {
        Set::new(|c: Coord| self.shows(c))
    }
}

} // verus!
