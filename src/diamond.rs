use vstd::prelude::*;
use crate::coord::Coord;
use crate::grid::Grid;
use crate::model::{abs, ring_point, CellModel, Scene, Scratch, updated};
use crate::provider::{in_area, lemma_window_fits, LosAlgorithm, MapProvider, MAX_VIEW_RANGE};

verus! {

/// Scratch record of one offset, as stored by the engine.
#[derive(Clone, Copy, Debug)]
pub struct CellData {
    pub obs: (i64, i64),
    pub err: (i64, i64),
    pub ignore: bool,
    pub visited: bool,
}

impl CellData {
    pub open spec fn view(self) -> CellModel {
        CellModel {
            obs: (self.obs.0 as int, self.obs.1 as int),
            err: (self.err.0 as int, self.err.1 as int),
            ignore: self.ignore,
            visited: self.visited,
        }
    }

    pub fn is_visible(&self) -> (r: bool)
        ensures
            r == self@.is_visible(),
    {
        self.visited && !self.ignore && (!self.is_obstacle() || self.is_wall())
    }

    pub fn is_wall(&self) -> (r: bool)
        ensures
            r == self@.is_wall(),
    {
        self.err.0 == self.obs.0 && self.err.1 == self.obs.1
    }

    pub fn is_obstacle(&self) -> (r: bool)
        ensures
            r == self@.is_obstacle(),
    {
        self.err.0 != 0 && self.err.0 <= self.obs.0 || self.err.1 != 0 && self.err.1 <= self.obs.1
    }
}

impl Default for CellData {
    fn default() -> (r: CellData)
        ensures
            r@ == CellModel::blank(),
    {
        CellData { obs: (0, 0), err: (0, 0), ignore: false, visited: false }
    }
}

fn magnitude(v: i32) -> (r: i64)
    ensures
        r == abs(v as int),
{
    if v < 0 {
        -(v as i64)
    } else {
        v as i64
    }
}

/// The `j`-th offset of the ring at Manhattan distance `d`, clockwise from
/// due east.
fn ring_offset(d: i32, j: i64) -> (r: Coord)
    requires
        1 <= d <= MAX_VIEW_RANGE,
        0 <= j < 4 * d,
    ensures
        r@ == ring_point(d as int, j as int),
{
    let d = d as i64;
    if j < d {
        Coord((d - j) as i32, j as i32)
    } else if j < 2 * d {
        Coord((d - j) as i32, (2 * d - j) as i32)
    } else if j < 3 * d {
        Coord((j - 3 * d) as i32, (2 * d - j) as i32)
    } else {
        Coord((j - 3 * d) as i32, (j - 4 * d) as i32)
    }
}

/// The diamond ray-casting line-of-sight engine.
///
/// It keeps a scratch grid of per-offset records, sized for the largest view
/// range requested so far, and leaves it blank after each computation so
/// that the next one needs no allocation.
#[derive(Clone, Debug)]
pub struct DiamondLos {
    origin: Coord,
    max_view_range: u32,
    cache: Grid<CellData>,
}

impl DiamondLos {
    /// The largest view range the scratch grid holds.
    pub closed spec fn capacity(&self) -> int {
        self.max_view_range as int
    }

    /// The origin of the latest computation; `(0, 0)` before any.
    pub closed spec fn last_origin(&self) -> Coord {
        self.origin
    }

    spec fn shaped(&self) -> bool {
        &&& self.max_view_range <= MAX_VIEW_RANGE
        &&& self.cache.wf()
        &&& self.cache.width == 2 * self.max_view_range + 1
        &&& self.cache.height == 2 * self.max_view_range + 1
    }

    spec fn in_window(&self, dx: int, dy: int) -> bool {
        -self.max_view_range <= dx <= self.max_view_range && -self.max_view_range <= dy
            <= self.max_view_range
    }

    spec fn scratch(&self, dx: int, dy: int) -> CellModel {
        self.cache.cell(dx + self.max_view_range, dy + self.max_view_range)@
    }

    spec fn clean(&self) -> bool {
        forall|dx: int, dy: int|
            self.in_window(dx, dy) ==> #[trigger] self.scratch(dx, dy) == CellModel::blank()
    }

    /// The scratch grid holds the sweep state `s` of scene `sc`.
    spec fn tracks(&self, sc: Scene, s: Scratch) -> bool {
        &&& self.shaped()
        &&& 0 <= sc.range <= self.max_view_range
        &&& self.origin@ == sc.origin
        &&& forall|dx: int, dy: int|
            self.in_window(dx, dy) ==> #[trigger] self.scratch(dx, dy) == s((dx, dy))
        &&& forall|q: (int, int)| #[trigger] s(q).bounded(sc.range)
        &&& forall|q: (int, int)| !sc.in_range(q) ==> #[trigger] s(q) == CellModel::blank()
    }

    /// An engine whose scratch grid holds view ranges up to `max_view_range`.
    pub fn new(max_view_range: u32) -> (r: Self)
        requires
            max_view_range <= MAX_VIEW_RANGE,
        ensures
            r.ready(),
            r.capacity() == max_view_range,
            r.last_origin() == Coord(0, 0),
    {
        proof {
            lemma_window_fits(max_view_range as int);
        }
        let side = max_view_range as usize * 2 + 1;
        DiamondLos {
            origin: Coord(0, 0),
            max_view_range,
            cache: Grid::new((side, side), CellData::default()),
        }
    }

    fn get_data(&self, offset: Coord) -> (r: &CellData)
        requires
            self.shaped(),
            self.in_window(offset.0 as int, offset.1 as int),
        ensures
            (*r)@ == self.scratch(offset.0 as int, offset.1 as int),
    {
        let m = self.max_view_range as i32;
        self.cache.get(Coord(offset.0 + m, offset.1 + m))
    }

    fn set_data(&mut self, offset: Coord, data: CellData)
        requires
            old(self).shaped(),
            old(self).in_window(offset.0 as int, offset.1 as int),
        ensures
            final(self).shaped(),
            final(self).max_view_range == old(self).max_view_range,
            final(self).origin == old(self).origin,
            final(self).scratch(offset.0 as int, offset.1 as int) == data@,
            forall|dx: int, dy: int|
                final(self).in_window(dx, dy) && !(dx == offset.0 && dy == offset.1)
                    ==> #[trigger] final(self).scratch(dx, dy) == old(self).scratch(dx, dy),
    {
        let m = self.max_view_range as i32;
        self.cache.set(Coord(offset.0 + m, offset.1 + m), data);
    }

    /// Whether the map cell at `origin + offset` lies within the map's bounds.
    fn is_in_bounds<M: MapProvider>(origin: Coord, offset: Coord, map: &M) -> (r: bool)
        ensures
            r == in_area(map.area(), (origin.0 + offset.0, origin.1 + offset.1)),
    {
        let bounds = map.bounds();
        let x = origin.0 as i64 + offset.0 as i64;
        let y = origin.1 as i64 + offset.1 as i64;
        x >= bounds.0.0 as i64 && x <= bounds.1.0 as i64 && y >= bounds.0.1 as i64 && y
            <= bounds.1.1 as i64
    }

    /// A ray step from offset `input` into its neighbour `offset`.
    fn apply_ray<M: MapProvider>(
        &mut self,
        offset: Coord,
        input: Coord,
        range: i32,
        map: &M,
        Ghost(sc): Ghost<Scene>,
        Ghost(s): Ghost<Scratch>,
    )
        requires
            old(self).tracks(sc, s),
            sc.range == range,
            sc.area == map.area(),
            sc.walls == map.walls(),
            sc.in_range(input@),
            -range - 1 <= offset.0 <= range + 1,
            -range - 1 <= offset.1 <= range + 1,
        ensures
            final(self).tracks(sc, sc.apply_ray(s, offset@, input@)),
            final(self).max_view_range == old(self).max_view_range,
    {
        if !Self::is_in_bounds(self.origin, offset, map) || offset.0 < -range || offset.0 > range
            || offset.1 < -range || offset.1 > range {
            return;
        }
        let origin = self.origin;
        let input_data = *self.get_data(input);
        let mut data = *self.get_data(offset);
        proof {
            assert(s(input@).bounded(sc.range));
            assert(s(offset@).bounded(sc.range));
        }
        if input_data.obs.0 != 0 || input_data.obs.1 != 0 {
            if offset.0 != input.0 {
                // moving along x
                if input_data.err.0 > 0 && (data.obs.0 == 0 || input_data.err.1 <= 0
                    && input_data.obs.1 > 0) {
                    data.obs = input_data.obs;
                    data.err = (
                        input_data.err.0 - input_data.obs.1,
                        input_data.err.1 + input_data.obs.1,
                    );
                }
            } else {
                // moving along y
                if input_data.err.1 > 0 && (data.obs.1 == 0 || input_data.err.0 <= 0
                    && input_data.obs.0 > 0) {
                    data.obs = input_data.obs;
                    data.err = (
                        input_data.err.0 + input_data.obs.0,
                        input_data.err.1 - input_data.obs.0,
                    );
                }
            }
        }
        data.ignore = (!data.visited || data.ignore) && input_data.is_obstacle();
        if !data.ignore && map.is_blocking(Coord(origin.0 + offset.0, origin.1 + offset.1)) {
            data.obs = (magnitude(offset.0), magnitude(offset.1));
            data.err = data.obs;
        }
        data.visited = true;
        self.set_data(offset, data);
        proof {
            let t = offset@;
            let c = s(t).ray_from(s(input@), t, t.0 != input@.0, sc.blocks(t));
            assert(data@ == c);
            let s2 = updated(s, t, c);
            assert forall|dx: int, dy: int| self.in_window(dx, dy) implies #[trigger] self.scratch(
                dx,
                dy,
            ) == s2((dx, dy)) by {
                if !(dx == t.0 && dy == t.1) {
                    assert(old(self).scratch(dx, dy) == s((dx, dy)));
                }
            }
            assert forall|q: (int, int)| #[trigger] s2(q).bounded(sc.range) by {
                if q != t {
                    assert(s(q).bounded(sc.range));
                }
            }
            assert forall|q: (int, int)| !sc.in_range(q) implies #[trigger] s2(q)
                == CellModel::blank() by {
                assert(s(q) == CellModel::blank());
            }
        }
    }

    /// Blank every scratch record.
    fn reset(&mut self)
        requires
            old(self).shaped(),
        ensures
            final(self).shaped(),
            final(self).clean(),
            final(self).max_view_range == old(self).max_view_range,
            final(self).origin == old(self).origin,
    {
        self.cache.fill(CellData::default());
    }

    /// Push the state at `offset` to its neighbours farther from the origin.
    fn propagate_from<M: MapProvider>(
        &mut self,
        offset: Coord,
        range: i32,
        map: &M,
        Ghost(sc): Ghost<Scene>,
        Ghost(s): Ghost<Scratch>,
    )
        requires
            old(self).tracks(sc, s),
            sc.range == range,
            sc.area == map.area(),
            sc.walls == map.walls(),
            sc.in_range(offset@),
        ensures
            final(self).tracks(sc, sc.propagate_from(s, offset@)),
            final(self).max_view_range == old(self).max_view_range,
    {
        if !Self::is_in_bounds(self.origin, offset, map) {
            return;
        }
        if !self.get_data(offset).ignore {
            let ghost mut cur = s;
            if offset.0 >= 0 {
                self.apply_ray(Coord(offset.0 + 1, offset.1), offset, range, map, Ghost(sc), Ghost(cur));
                proof {
                    cur = sc.apply_ray(cur, (offset.0 + 1, offset.1 as int), offset@);
                }
            }
            if offset.1 >= 0 {
                self.apply_ray(Coord(offset.0, offset.1 + 1), offset, range, map, Ghost(sc), Ghost(cur));
                proof {
                    cur = sc.apply_ray(cur, (offset.0 as int, offset.1 + 1), offset@);
                }
            }
            if offset.0 <= 0 {
                self.apply_ray(Coord(offset.0 - 1, offset.1), offset, range, map, Ghost(sc), Ghost(cur));
                proof {
                    cur = sc.apply_ray(cur, (offset.0 - 1, offset.1 as int), offset@);
                }
            }
            if offset.1 <= 0 {
                self.apply_ray(Coord(offset.0, offset.1 - 1), offset, range, map, Ghost(sc), Ghost(cur));
            }
        }
    }
}

impl LosAlgorithm for DiamondLos {
    closed spec fn ready(&self) -> bool {
        self.shaped() && self.clean()
    }

    /// Marks exactly the cells of the scene's field of view; the scratch grid
    /// grows to the view range if it was smaller, and is left blank.
    fn compute_los<M: MapProvider>(&mut self, origin: Coord, vision_range: u32, map: &mut M)
        ensures
            final(self).capacity() == if vision_range > old(self).capacity() {
                vision_range as int
            } else {
                old(self).capacity()
            },
            final(self).last_origin() == origin,
            final(map).seen() == old(map).seen().union(
                Scene::of(origin, vision_range as int, old(map).area(), old(map).walls()).fov(),
            ),
    {
        // The scratch grid only ever grows.
        if vision_range > self.max_view_range {
            self.max_view_range = vision_range;
            proof {
                lemma_window_fits(vision_range as int);
            }
            let side = vision_range as usize * 2 + 1;
            let blank = CellData::default();
            self.cache = Grid::new((side, side), blank);
            assert forall|dx: int, dy: int| self.in_window(dx, dy) implies #[trigger] self.scratch(
                dx,
                dy,
            ) == CellModel::blank() by {
                assert(self.cache.holds(dx + vision_range, dy + vision_range));
            }
            assert(self.clean());
        }
        let ghost pre = *self;
        assert(pre.clean());
        self.origin = origin;
        let ghost cap = self.max_view_range;
        assert(self.cache == pre.cache && self.max_view_range == pre.max_view_range);
        assert(self.clean()) by {
            assert forall|dx: int, dy: int| self.in_window(dx, dy) implies #[trigger] self.scratch(
                dx,
                dy,
            ) == CellModel::blank() by {
                assert(pre.scratch(dx, dy) == CellModel::blank());
            }
        }
        let ghost sc = Scene::of(origin, vision_range as int, map.area(), map.walls());
        map.mark_as_visible(origin);
        let ghost seen1 = map.seen();
        let range = vision_range as i32;

        // Seed the origin and propagate from it.
        let zero = Coord(0, 0);
        let ghost snap = *self;
        let mut seed = *self.get_data(zero);
        seed.visited = true;
        self.set_data(zero, seed);
        proof {
            let st = sc.start();
            assert forall|dx: int, dy: int| self.in_window(dx, dy) implies #[trigger] self.scratch(
                dx,
                dy,
            ) == st((dx, dy)) by {
                if !(dx == 0 && dy == 0) {
                    assert(snap.scratch(dx, dy) == CellModel::blank());
                }
            }
            assert forall|q: (int, int)| #[trigger] st(q).bounded(sc.range) by {}
            assert forall|q: (int, int)| !sc.in_range(q) implies #[trigger] st(q)
                == CellModel::blank() by {}
        }
        self.propagate_from(zero, range, &*map, Ghost(sc), Ghost(sc.start()));

        // Sweep the rings at distance 1 up to, not including, the view range.
        let mut distance: i32 = 1;
        assert(range == sc.range);
        while distance < range
            invariant
                1 <= distance,
                range <= 1 ==> distance == 1,
                range == sc.range,
                self.max_view_range == cap,
                distance <= range || range <= 1,
                range == vision_range,
                range <= MAX_VIEW_RANGE,
                self.tracks(sc, sc.sweep(sc.seeded(), distance - 1)),
                map.area() == sc.area,
                map.walls() == sc.walls,
                map.seen() == seen1,
            decreases range - distance,
        {
            let ghost prev = sc.sweep(sc.seeded(), distance - 1);
            let ring_len: i64 = 4 * distance as i64;
            let mut j: i64 = 0;
            while j < ring_len
                invariant
                    1 <= distance < range,
                    range == sc.range,
                    self.max_view_range == cap,
                    range <= MAX_VIEW_RANGE,
                    ring_len == 4 * distance,
                    0 <= j <= ring_len,
                    self.tracks(sc, sc.sweep_ring(prev, distance as int, j as int)),
                    map.area() == sc.area,
                    map.walls() == sc.walls,
                decreases ring_len - j,
            {
                let offset = ring_offset(distance, j);
                self.propagate_from(
                    offset,
                    range,
                    &*map,
                    Ghost(sc),
                    Ghost(sc.sweep_ring(prev, distance as int, j as int)),
                );
                j = j + 1;
            }
            distance = distance + 1;
        }

        // Report each visible cell of the window that lies on the map.
        let ghost fin = sc.swept();
        assert(sc.sweep(sc.seeded(), distance - 1) == fin);
        let mut y: i32 = -range;
        while y <= range
            invariant
                -range <= y <= range + 1,
                sc.origin == origin@,
                fin == sc.swept(),
                range == sc.range,
                self.max_view_range == cap,
                range <= MAX_VIEW_RANGE,
                self.tracks(sc, fin),
                map.area() == sc.area,
                map.walls() == sc.walls,
                map.seen() == seen1.union(sc.emitted(fin, y as int, -range)),
            decreases range + 1 - y,
        {
            let mut x: i32 = -range;
            while x <= range
                invariant
                    -range <= y <= range,
                    -range <= x <= range + 1,
                    sc.origin == origin@,
                    fin == sc.swept(),
                    range == sc.range,
                    self.max_view_range == cap,
                    range <= MAX_VIEW_RANGE,
                    self.tracks(sc, fin),
                    map.area() == sc.area,
                    map.walls() == sc.walls,
                    map.seen() == seen1.union(sc.emitted(fin, y as int, x as int)),
                decreases range + 1 - x,
            {
                let offset = Coord(x, y);
                let ghost before_seen = map.seen();
                let ghost here = (x as int, y as int);
                let ghost vis = fin(here).is_visible();
                assert(self.scratch(x as int, y as int) == fin(here));
                let inside = Self::is_in_bounds(origin, offset, map);
                let mut shown = false;
                if inside {
                    let data = *self.get_data(offset);
                    if data.is_visible() {
                        map.mark_as_visible(Coord(origin.0 + x, origin.1 + y));
                        shown = true;
                    }
                }
                assert(shown == (inside && vis));
                proof {
                    let e0 = sc.emitted(fin, y as int, x as int);
                    let e1 = sc.emitted(fin, y as int, x + 1);
                    assert forall|c: Coord| #[trigger] e1.contains(c) == (e0.contains(c) || (shown
                        && c@ == sc.at(here))) by {
                        if sc.offset_of(c) == here {
                            assert(c@ == sc.at(here));
                            assert(sc.area == map.area());
                            assert(sc.at(here) == (origin.0 + x, origin.1 + y));
                            assert(in_area(sc.area, c@) == inside);
                        } else {
                            assert(c@ != sc.at(here));
                        }
                    }
                    if shown {
                        let cell = Coord((origin.0 + x) as i32, (origin.1 + y) as i32);
                        assert(e1 =~= e0.insert(cell));
                        assert(map.seen() =~= seen1.union(e1));
                    } else {
                        assert(e1 =~= e0);
                    }
                }
                x = x + 1;
            }
            proof {
                assert(sc.emitted(fin, y as int, range + 1) =~= sc.emitted(fin, y + 1, -range));
            }
            y = y + 1;
        }
        proof {
            assert(map.seen() =~= old(map).seen().union(sc.fov()));
        }
        self.reset();
    }
}

} // verus!
