use vstd::prelude::*;
use crate::coord::Coord;

verus! {

/// Largest view range an engine accepts: the scratch window, `2 * range + 1`
/// cells on a side, must have a cell count that fits a 32-bit `usize`.
pub const MAX_VIEW_RANGE: u32 = 0x7fff;

/// Whether point `p` lies inside the inclusive rectangle `area = (min, max)`.
pub open spec fn in_area(area: (Coord, Coord), p: (int, int)) -> bool {
    area.0.0 <= p.0 <= area.1.0 && area.0.1 <= p.1 <= area.1.1
}

/// A square window of `2 * range + 1` cells on a side, for a range up to
/// [`MAX_VIEW_RANGE`], has a cell count that fits in a `usize`.
pub proof fn lemma_window_fits(range: int)
    requires
        0 <= range <= MAX_VIEW_RANGE,
    ensures
        (2 * range + 1) * (2 * range + 1) <= usize::MAX,
{
    assert((2 * range + 1) * (2 * range + 1) <= 0xffff * 0xffff) by (nonlinear_arith)
        requires
            0 <= range <= 0x7fff,
    ;
}

/// A host map: it answers obstruction queries, reports its bounds and
/// records the cells found visible.
pub trait MapProvider {
    /// The cells that block the view.
    spec fn walls(&self) -> Set<Coord>;

    /// The inclusive rectangle `(min, max)` of the map.
    spec fn area(&self) -> (Coord, Coord);

    /// The cells marked visible so far.
    spec fn seen(&self) -> Set<Coord>;

    /// Whether the cell at `coord` blocks the view.
    fn is_blocking(&self, coord: Coord) -> (r: bool)
        requires
            in_area(self.area(), coord@),
        ensures
            r == self.walls().contains(coord),
    ;

    /// The bounds of the map as `(min, max)`, both inclusive.
    fn bounds(&self) -> (r: (Coord, Coord))
        ensures
            r == self.area(),
    ;

    /// Mark the cell at `coord` as visible; a cell outside the bounds is not
    /// recorded. Marking a cell twice has the effect of marking it once.
    fn mark_as_visible(&mut self, coord: Coord)
        ensures
            final(self).walls() == old(self).walls(),
            final(self).area() == old(self).area(),
            final(self).seen() == (if in_area(old(self).area(), coord@) {
                old(self).seen().insert(coord)
            } else {
                old(self).seen()
            }),
    ;
}

/// A line-of-sight algorithm.
pub trait LosAlgorithm {
    /// The algorithm's internal state is ready for a computation.
    spec fn ready(&self) -> bool;

    /// Compute the line of sight in `map` from `origin`, marking the visible
    /// cells in `map`. Takes `&mut self` so that internal scratch data can be
    /// reused from one call to the next.
    fn compute_los<M: MapProvider>(&mut self, origin: Coord, vision_range: u32, map: &mut M)
        requires
            old(self).ready(),
            vision_range <= MAX_VIEW_RANGE,
        ensures
            final(self).ready(),
            final(map).walls() == old(map).walls(),
            final(map).area() == old(map).area(),
            old(map).seen().subset_of(final(map).seen()),
    ;
}

} // verus!
