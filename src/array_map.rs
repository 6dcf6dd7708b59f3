use vstd::prelude::*;
use vstd::string::StringExecFns;
use crate::coord::Coord;
use crate::grid::Grid;
use crate::provider::{in_area, MapProvider};

verus! {

/// A host map held in memory: a rectangle of cells with its top-left corner
/// at `(0, 0)`, each of which may be a wall, and the cells marked visible.
#[derive(Debug)]
pub struct ArrayMapProvider {
    size: (usize, usize),
    visible: Grid<bool>,
    map: Grid<bool>,
}

/// How one cell is drawn: `' '` unseen, `'.'` visible, `'x'` unseen wall,
/// `'X'` visible wall.
pub open spec fn glyph(wall: bool, seen: bool) -> char {
    if wall {
        if seen {
            'X'
        } else {
            'x'
        }
    } else if seen {
        '.'
    } else {
        ' '
    }
}

impl ArrayMapProvider {
    /// The map's width, in cells.
    pub open spec fn width(&self) -> int {
        self.area().1.0 + 1
    }

    /// The map's height, in cells.
    pub open spec fn height(&self) -> int {
        self.area().1.1 + 1
    }

    /// The glyphs of the first `n` cells of row `y`.
    pub open spec fn row_text(&self, y: int, n: int) -> Seq<char>
        decreases n,
    {
        if n <= 0 {
            Seq::empty()
        } else {
            let c = Coord((n - 1) as i32, y as i32);
            self.row_text(y, n - 1).push(glyph(self.walls().contains(c), self.seen().contains(c)))
        }
    }

    /// The first `m` rows, each drawn as `[`, its glyphs, `]` and a newline.
    pub open spec fn text(&self, m: int) -> Seq<char>
        decreases m,
    {
        if m <= 0 {
            Seq::empty()
        } else {
            self.text(m - 1) + seq!['['] + self.row_text(m - 1, self.width()) + seq![']', '\n']
        }
    }

    #[verifier::type_invariant]
    spec fn well_formed(self) -> bool {
        &&& self.size.0 <= i32::MAX
        &&& self.size.1 <= i32::MAX
        &&& self.visible.wf()
        &&& self.map.wf()
        &&& self.visible.width == self.size.0
        &&& self.visible.height == self.size.1
        &&& self.map.width == self.size.0
        &&& self.map.height == self.size.1
    }

    /// An empty map of `size = (width, height)` cells with no wall and
    /// nothing marked visible.
    pub fn new(size: (usize, usize)) -> (r: Self)
        requires
            size.0 <= i32::MAX,
            size.1 <= i32::MAX,
            size.0 * size.1 <= usize::MAX,
        ensures
            r.area() == (Coord(0, 0), Coord((size.0 - 1) as i32, (size.1 - 1) as i32)),
            r.walls() == Set::<Coord>::empty(),
            r.seen() == Set::<Coord>::empty(),
    {
        let r = ArrayMapProvider {
            size,
            visible: Grid::new(size, false),
            map: Grid::new(size, false),
        };
        assert(r.walls() =~= Set::<Coord>::empty());
        assert(r.seen() =~= Set::<Coord>::empty());
        r
    }

    /// Clear every visible mark.
    pub fn reset(&mut self)
        ensures
            final(self).area() == old(self).area(),
            final(self).walls() == old(self).walls(),
            final(self).seen() == Set::<Coord>::empty(),
    {
        proof {
            use_type_invariant(&*self);
        }
        self.visible.fill(false);
        assert(self.walls() =~= old(self).walls());
        assert(self.seen() =~= Set::<Coord>::empty());
    }

    /// Make the cell at `coord` a wall (`value`) or open ground.
    pub fn set_wall(&mut self, coord: Coord, value: bool)
        requires
            in_area(old(self).area(), coord@),
        ensures
            final(self).area() == old(self).area(),
            final(self).seen() == old(self).seen(),
            final(self).walls() == (if value {
                old(self).walls().insert(coord)
            } else {
                old(self).walls().remove(coord)
            }),
    {
        proof {
            use_type_invariant(&*self);
        }
        self.map.set(coord, value);
        assert(self.seen() =~= old(self).seen());
        if value {
            assert(self.walls() =~= old(self).walls().insert(coord));
        } else {
            assert(self.walls() =~= old(self).walls().remove(coord));
        }
    }

    /// Whether the cell at `coord` is on the map and marked visible.
    pub fn is_visible(&self, coord: Coord) -> (r: bool)
        ensures
            r == self.seen().contains(coord),
    {
        proof {
            use_type_invariant(self);
        }
        self.visible.in_bounds(coord) && *self.visible.get(coord)
    }

    /// Whether the cell at `coord` is on the map and a wall.
    pub fn is_wall(&self, coord: Coord) -> (r: bool)
        ensures
            r == self.walls().contains(coord),
    {
        proof {
            use_type_invariant(self);
        }
        self.map.in_bounds(coord) && *self.map.get(coord)
    }

    /// The whole map drawn row by row, top to bottom.
    pub fn render(&self) -> (r: String)
        ensures
            r@ == self.text(self.height()),
    {
        proof {
            use_type_invariant(self);
        }
        let mut out = String::new();
        let mut y: usize = 0;
        while y < self.size.1
            invariant
                self.well_formed(),
                y <= self.size.1,
                out@ == self.text(y as int),
            decreases self.size.1 - y,
        {
            proof {
                reveal_strlit("[");
                reveal_strlit("]\n");
            }
            out.append("[");
            let mut x: usize = 0;
            while x < self.size.0
                invariant
                    self.well_formed(),
                    y < self.size.1,
                    x <= self.size.0,
                    out@ == self.text(y as int) + seq!['['] + self.row_text(y as int, x as int),
                decreases self.size.0 - x,
            {
                let c = Coord(x as i32, y as i32);
                let wall = *self.map.get(c);
                let seen = *self.visible.get(c);
                assert(wall == self.walls().contains(c));
                assert(seen == self.seen().contains(c));
                let ghost before = out@;
                proof {
                    reveal_strlit("X");
                    reveal_strlit("x");
                    reveal_strlit(".");
                    reveal_strlit(" ");
                }
                if wall {
                    if seen {
                        out.append("X");
                    } else {
                        out.append("x");
                    }
                } else if seen {
                    out.append(".");
                } else {
                    out.append(" ");
                }
                assert(out@ =~= before.push(glyph(wall, seen)));
                assert(self.row_text(y as int, x + 1) == self.row_text(y as int, x as int).push(
                    glyph(wall, seen),
                ));
                assert(out@ =~= self.text(y as int) + seq!['['] + self.row_text(y as int, x + 1));
                x = x + 1;
            }
            out.append("]\n");
            assert(out@ =~= self.text(y + 1));
            y = y + 1;
        }
        out
    }

    /// The map's `(width, height)`.
    pub fn size(&self) -> (r: (usize, usize))
        ensures
            r.0 == self.area().1.0 + 1,
            r.1 == self.area().1.1 + 1,
    {
        proof {
            use_type_invariant(self);
        }
        self.size
    }
}

impl MapProvider for ArrayMapProvider {
    closed spec fn walls(&self) -> Set<Coord> {
        Set::new(|c: Coord| self.map.holds(c.0 as int, c.1 as int) && self.map.cell(c.0 as int, c.1 as int))
    }

    closed spec fn area(&self) -> (Coord, Coord) {
        (Coord(0, 0), Coord((self.size.0 - 1) as i32, (self.size.1 - 1) as i32))
    }

    closed spec fn seen(&self) -> Set<Coord> {
        Set::new(
            |c: Coord| self.visible.holds(c.0 as int, c.1 as int) && self.visible.cell(c.0 as int, c.1 as int),
        )
    }

    fn is_blocking(&self, coord: Coord) -> (r: bool) {
        proof {
            use_type_invariant(self);
        }
        *self.map.get(coord)
    }

    fn bounds(&self) -> (r: (Coord, Coord)) {
        proof {
            use_type_invariant(self);
        }
        (Coord(0, 0), Coord(self.size.0 as i32 - 1, self.size.1 as i32 - 1))
    }

    fn mark_as_visible(&mut self, coord: Coord) {
        proof {
            use_type_invariant(&*self);
        }
        if self.visible.in_bounds(coord) {
            self.visible.set(coord, true);
            assert(self.seen() =~= old(self).seen().insert(coord));
        }
        assert(self.walls() =~= old(self).walls());
    }
}

} // verus!
