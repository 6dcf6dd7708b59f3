use vstd::prelude::*;
use crate::coord::Coord;

verus! {

/// A dense `width` x `height` array, row-major, addressed by [`Coord`].
#[derive(Clone, Debug)]
pub struct Grid<T> {
    pub width: usize,
    pub height: usize,
    pub inner: Vec<T>,
}

/// Row-major slot of column `x` in row `y` for rows of `width` cells.
pub open spec fn slot(width: int, x: int, y: int) -> int {
    y * width + x
}

proof fn lemma_slot_in_range(width: int, height: int, x: int, y: int)
    requires
        0 <= x < width,
        0 <= y < height,
    ensures
        0 <= y * width <= slot(width, x, y) < width * height,
{
    assert(y * width + x < width * height) by (nonlinear_arith)
        requires
            0 <= x < width,
            0 <= y < height,
    ;
    assert(0 <= y * width) by (nonlinear_arith)
        requires
            0 <= y,
            0 <= width,
    ;
}

proof fn lemma_slot_injective(width: int, x1: int, y1: int, x2: int, y2: int)
    requires
        0 <= x1 < width,
        0 <= x2 < width,
        slot(width, x1, y1) == slot(width, x2, y2),
    ensures
        x1 == x2,
        y1 == y2,
{
    assert(y1 == y2) by (nonlinear_arith)
        requires
            0 <= x1 < width,
            0 <= x2 < width,
            y1 * width + x1 == y2 * width + x2,
    ;
}

impl<T> Grid<T> {
    /// Storage holds exactly `width * height` cells.
    pub open spec fn wf(&self) -> bool {
        &&& self.width * self.height <= usize::MAX
        &&& self.inner@.len() == self.width * self.height
    }

    /// Whether column `x`, row `y` lies inside the grid.
    pub open spec fn holds(&self, x: int, y: int) -> bool {
        0 <= x < self.width && 0 <= y < self.height
    }

    /// The cell at column `x`, row `y`.
    pub open spec fn cell(&self, x: int, y: int) -> T {
        self.inner@[slot(self.width as int, x, y)]
    }

    /// A `width` x `height` grid with every cell set to `initial_value`.
    pub fn new(size: (usize, usize), initial_value: T) -> (r: Self)
        where
            T: Copy,
        requires
            size.0 * size.1 <= usize::MAX,
        ensures
            r.wf(),
            r.width == size.0,
            r.height == size.1,
            forall|x: int, y: int| r.holds(x, y) ==> #[trigger] r.cell(x, y) == initial_value,
    {
        let (width, height) = size;
        let n: usize = width * height;
        let mut inner: Vec<T> = Vec::with_capacity(n);
        let mut i: usize = 0;
        while i < n
            invariant
                i <= n,
                inner@.len() == i,
                forall|k: int| 0 <= k < i ==> #[trigger] inner@[k] == initial_value,
            decreases n - i,
        {
            inner.push(initial_value);
            i = i + 1;
        }
        let r = Grid { width, height, inner };
        assert forall|x: int, y: int| r.holds(x, y) implies #[trigger] r.cell(x, y) == initial_value by {
            lemma_slot_in_range(width as int, height as int, x, y);
        }
        r
    }

    /// Whether `index` addresses a cell of the grid.
    pub fn in_bounds(&self, index: Coord) -> (r: bool)
        ensures
            r == self.holds(index.0 as int, index.1 as int),
    {
        index.1 >= 0 && (index.1 as usize) < self.height && index.0 >= 0 && (index.0 as usize)
            < self.width
    }

    /// The cell at `index`.
    pub fn get(&self, index: Coord) -> (r: &T)
        requires
            self.wf(),
            self.holds(index.0 as int, index.1 as int),
        ensures
            *r == self.cell(index.0 as int, index.1 as int),
    {
        proof {
            lemma_slot_in_range(self.width as int, self.height as int, index.0 as int, index.1 as int);
        }
        &self.inner[index.1 as usize * self.width + index.0 as usize]
    }

    /// Overwrite the cell at `index` with `value`.
    pub fn set(&mut self, index: Coord, value: T)
        requires
            old(self).wf(),
            old(self).holds(index.0 as int, index.1 as int),
        ensures
            final(self).wf(),
            final(self).width == old(self).width,
            final(self).height == old(self).height,
            final(self).cell(index.0 as int, index.1 as int) == value,
            forall|x: int, y: int|
                final(self).holds(x, y) && !(x == index.0 && y == index.1)
                    ==> #[trigger] final(self).cell(x, y) == old(self).cell(x, y),
        no_unwind
    {
        let ghost w = self.width as int;
        let ghost h = self.height as int;
        proof {
            lemma_slot_in_range(w, h, index.0 as int, index.1 as int);
        }
        let k = index.1 as usize * self.width + index.0 as usize;
        self.inner[k] = value;
        proof {
            assert forall|x: int, y: int|
                self.holds(x, y) && !(x == index.0 && y == index.1) implies #[trigger] self.cell(x, y)
                == old(self).cell(x, y) by {
                lemma_slot_in_range(w, h, x, y);
                if slot(w, x, y) == slot(w, index.0 as int, index.1 as int) {
                    lemma_slot_injective(w, x, y, index.0 as int, index.1 as int);
                }
            }
        }
    }

    /// Overwrite every cell with `value`.
    pub fn fill(&mut self, value: T)
        where
            T: Copy,
        requires
            old(self).wf(),
        ensures
            final(self).wf(),
            final(self).width == old(self).width,
            final(self).height == old(self).height,
            forall|x: int, y: int| final(self).holds(x, y) ==> #[trigger] final(self).cell(x, y) == value,
        no_unwind
    {
        let n = self.inner.len();
        let mut i: usize = 0;
        while i < n
            invariant
                i <= n,
                n == self.inner@.len(),
                self.width == old(self).width,
                self.height == old(self).height,
                self.wf(),
                forall|k: int| 0 <= k < i ==> #[trigger] self.inner@[k] == value,
            decreases n - i,
        {
            self.inner[i] = value;
            i = i + 1;
        }
        assert forall|x: int, y: int| self.holds(x, y) implies #[trigger] self.cell(x, y) == value by {
            lemma_slot_in_range(self.width as int, self.height as int, x, y);
        }
    }
}

} // verus!
