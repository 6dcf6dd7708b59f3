use vstd::prelude::*;
use crate::coord::Coord;
use crate::model::{abs, ring_point, CellModel, Scene, Scratch};
use crate::provider::{in_area, MapProvider};

verus! {

/// The origin, when it lies on the map, is among the cells that a computation
/// marks visible, for every view range.
pub proof fn lemma_origin_visible(origin: Coord, range: u32, area: (Coord, Coord), walls: Set<Coord>)
    requires
        in_area(area, origin@),
    ensures
        Scene::of(origin, range as int, area, walls).fov().contains(origin),
{
}

/// Two computations with the same origin and range, on maps with the same
/// bounds, the same walls on them and the same marks beforehand, leave the
/// same marks: what a computation marks depends on its arguments and the
/// map alone, not on what the engine computed before.
pub proof fn lemma_reuse_idempotent<M: MapProvider>(
    origin: Coord,
    range: u32,
    before1: M,
    after1: M,
    before2: M,
    after2: M,
)
    requires
        before1.area() == before2.area(),
        same_walls_on(before1.area(), before1.walls(), before2.walls()),
        before1.seen() == before2.seen(),
        after1.seen() == before1.seen().union(
            Scene::of(origin, range as int, before1.area(), before1.walls()).fov(),
        ),
        after2.seen() == before2.seen().union(
            Scene::of(origin, range as int, before2.area(), before2.walls()).fov(),
        ),
    ensures
        after1.seen() == after2.seen(),
{
    lemma_fov_local(origin, range, before1.area(), before1.walls(), before2.walls());
}

/// Every reached, not absorbed, blocking cell holds the record of a wall.
spec fn walls_marked(sc: Scene, s: Scratch) -> bool {
    forall|q: (int, int)|
        (#[trigger] s(q)).visited && !s(q).ignore && sc.in_map(q) && sc.blocks(q) ==> s(q).is_wall()
}

proof fn lemma_apply_ray_walls(sc: Scene, s: Scratch, t: (int, int), src: (int, int))
    requires
        walls_marked(sc, s),
    ensures
        walls_marked(sc, sc.apply_ray(s, t, src)),
{
}

proof fn lemma_propagate_walls(sc: Scene, s: Scratch, o: (int, int))
    requires
        walls_marked(sc, s),
    ensures
        walls_marked(sc, sc.propagate_from(s, o)),
{
    let s1 = if o.0 >= 0 {
        sc.apply_ray(s, (o.0 + 1, o.1), o)
    } else {
        s
    };
    lemma_apply_ray_walls(sc, s, (o.0 + 1, o.1), o);
    let s2 = if o.1 >= 0 {
        sc.apply_ray(s1, (o.0, o.1 + 1), o)
    } else {
        s1
    };
    lemma_apply_ray_walls(sc, s1, (o.0, o.1 + 1), o);
    let s3 = if o.0 <= 0 {
        sc.apply_ray(s2, (o.0 - 1, o.1), o)
    } else {
        s2
    };
    lemma_apply_ray_walls(sc, s2, (o.0 - 1, o.1), o);
    lemma_apply_ray_walls(sc, s3, (o.0, o.1 - 1), o);
}

proof fn lemma_sweep_ring_walls(sc: Scene, s: Scratch, d: int, n: int)
    requires
        walls_marked(sc, s),
    ensures
        walls_marked(sc, sc.sweep_ring(s, d, n)),
    decreases n,
{
    if n > 0 {
        lemma_sweep_ring_walls(sc, s, d, n - 1);
        lemma_propagate_walls(sc, sc.sweep_ring(s, d, n - 1), ring_point(d, n - 1));
    }
}

proof fn lemma_sweep_walls(sc: Scene, s: Scratch, k: int)
    requires
        walls_marked(sc, s),
    ensures
        walls_marked(sc, sc.sweep(s, k)),
    decreases k,
{
    if k > 0 {
        lemma_sweep_walls(sc, s, k - 1);
        lemma_sweep_ring_walls(sc, sc.sweep(s, k - 1), k, 4 * k);
    }
}

/// A wall within the window that the sweep reaches without absorbing it
/// into an earlier obstacle's shadow is itself marked visible, even though
/// it hides the cells behind it.
pub proof fn lemma_wall_self_visible(
    origin: Coord,
    range: u32,
    area: (Coord, Coord),
    walls: Set<Coord>,
    c: Coord,
)
    requires
        in_area(area, c@),
        walls.contains(c),
        ({
            let sc = Scene::of(origin, range as int, area, walls);
            &&& sc.in_range(sc.offset_of(c))
            &&& sc.swept()(sc.offset_of(c)).visited
            &&& !sc.swept()(sc.offset_of(c)).ignore
        }),
    ensures
        Scene::of(origin, range as int, area, walls).fov().contains(c),
{
    let sc = Scene::of(origin, range as int, area, walls);
    let q = sc.offset_of(c);
    assert(walls_marked(sc, sc.start()));
    lemma_propagate_walls(sc, sc.start(), (0, 0));
    lemma_sweep_walls(sc, sc.seeded(), sc.range - 1);
    assert(sc.at(q) == c@);
    assert(Coord(sc.at(q).0 as i32, sc.at(q).1 as i32) == c);
    assert(sc.swept()(q).is_wall());
}

/// Manhattan distance of an offset from the origin.
pub open spec fn dist(q: (int, int)) -> int {
    abs(q.0) + abs(q.1)
}

/// The map cells whose offset lies in the square window of the view range.
pub open spec fn window(sc: Scene) -> Set<Coord> {
    Set::new(|c: Coord| sc.in_range(sc.offset_of(c)))
}

proof fn lemma_ring_point_dist(d: int, j: int)
    requires
        1 <= d,
        0 <= j < 4 * d,
    ensures
        dist(ring_point(d, j)) == d,
{
}

/// Propagating from `o` only changes cells one step farther out, inside the
/// window.
proof fn lemma_propagate_frame(sc: Scene, s: Scratch, o: (int, int), q: (int, int))
    ensures
        sc.propagate_from(s, o)(q) != s(q) ==> dist(q) == dist(o) + 1 && sc.in_range(q) && sc.in_map(q),
{
}

proof fn lemma_sweep_ring_frame(sc: Scene, s: Scratch, d: int, n: int, q: (int, int))
    requires
        1 <= d,
        n <= 4 * d,
    ensures
        sc.sweep_ring(s, d, n)(q) != s(q) ==> dist(q) == d + 1 && sc.in_range(q) && sc.in_map(q),
    decreases n,
{
    if n > 0 {
        lemma_sweep_ring_frame(sc, s, d, n - 1, q);
        lemma_ring_point_dist(d, n - 1);
        lemma_propagate_frame(sc, sc.sweep_ring(s, d, n - 1), ring_point(d, n - 1), q);
    }
}

/// Sweeping rings `k0 + 1 ..= k` leaves cells within distance `k0 + 1`
/// alone, and only changes cells of the window.
proof fn lemma_sweep_frame(sc: Scene, s: Scratch, k0: int, k: int, q: (int, int))
    requires
        k0 <= k,
    ensures
        sc.sweep(s, k)(q) != sc.sweep(s, k0)(q) ==> k0 + 2 <= dist(q) <= k + 1 && sc.in_range(q)
            && sc.in_map(q),
    decreases k,
{
    if k > k0 && k > 0 {
        lemma_sweep_frame(sc, s, k0, k - 1, q);
        lemma_sweep_ring_frame(sc, sc.sweep(s, k - 1), k, 4 * k, q);
    }
}

/// Two scenes that differ in their view range alone.
spec fn same_map(a: Scene, b: Scene) -> bool {
    a.origin == b.origin && a.area == b.area && a.walls == b.walls
}

proof fn lemma_propagate_range(a: Scene, b: Scene, s: Scratch, o: (int, int))
    requires
        same_map(a, b),
        dist(o) + 1 <= a.range,
        dist(o) + 1 <= b.range,
    ensures
        a.propagate_from(s, o) == b.propagate_from(s, o),
{
}

proof fn lemma_sweep_ring_range(a: Scene, b: Scene, s: Scratch, d: int, n: int)
    requires
        same_map(a, b),
        1 <= d,
        n <= 4 * d,
        d + 1 <= a.range,
        d + 1 <= b.range,
    ensures
        a.sweep_ring(s, d, n) == b.sweep_ring(s, d, n),
    decreases n,
{
    if n > 0 {
        lemma_sweep_ring_range(a, b, s, d, n - 1);
        lemma_ring_point_dist(d, n - 1);
        lemma_propagate_range(a, b, a.sweep_ring(s, d, n - 1), ring_point(d, n - 1));
    }
}

proof fn lemma_sweep_range(a: Scene, b: Scene, s: Scratch, k: int)
    requires
        same_map(a, b),
        k + 1 <= a.range,
        k + 1 <= b.range,
    ensures
        a.sweep(s, k) == b.sweep(s, k),
    decreases k,
{
    if k > 0 {
        lemma_sweep_range(a, b, s, k - 1);
        lemma_sweep_ring_range(a, b, a.sweep(s, k - 1), k, 4 * k);
    }
}

/// A cell holding anything after the sweep is the origin or lies in the
/// window, within Manhattan distance `max(range, 1)`.
proof fn lemma_swept_support(sc: Scene, q: (int, int))
    requires
        sc.range >= 0,
    ensures
        sc.swept()(q) != CellModel::blank() ==> q == (0int, 0int) || (sc.in_range(q) && sc.in_map(q)
            && dist(q) <= if sc.range > 1 {
            sc.range
        } else {
            1
        }),
{
    lemma_propagate_frame(sc, sc.start(), (0, 0), q);
    if sc.range >= 1 {
        lemma_sweep_frame(sc, sc.seeded(), 0, sc.range - 1, q);
    }
}

/// A cell within Manhattan distance `r` of the origin ends a sweep of range
/// `r` as it ends a sweep of any larger range.
proof fn lemma_swept_agree(a: Scene, b: Scene, q: (int, int))
    requires
        same_map(a, b),
        0 <= a.range <= b.range,
        dist(q) <= a.range,
    ensures
        a.swept()(q) == b.swept()(q),
{
    if a.range >= 1 {
        lemma_propagate_range(a, b, a.start(), (0, 0));
        assert(a.seeded() == b.seeded());
        lemma_sweep_range(a, b, a.seeded(), a.range - 1);
        lemma_sweep_frame(b, b.seeded(), a.range - 1, b.range - 1, q);
    } else {
        lemma_propagate_frame(a, a.start(), (0, 0), q);
        lemma_propagate_frame(b, b.start(), (0, 0), q);
        if b.range >= 1 {
            lemma_sweep_frame(b, b.seeded(), 0, b.range - 1, q);
        }
    }
}

/// Two wall sets that agree on every cell of `area`.
pub open spec fn same_walls_on(area: (Coord, Coord), w1: Set<Coord>, w2: Set<Coord>) -> bool {
    forall|c: Coord| in_area(area, c@) ==> (w1.contains(c) <==> w2.contains(c))
}

/// Two scenes that differ at most in walls off the map.
spec fn same_view(a: Scene, b: Scene) -> bool {
    &&& a.origin == b.origin
    &&& a.area == b.area
    &&& a.range == b.range
    &&& same_walls_on(a.area, a.walls, b.walls)
}

proof fn lemma_apply_ray_view(a: Scene, b: Scene, s: Scratch, t: (int, int), src: (int, int))
    requires
        same_view(a, b),
    ensures
        a.apply_ray(s, t, src) == b.apply_ray(s, t, src),
{
    if a.in_map(t) && a.in_range(t) {
        let c = Coord(a.at(t).0 as i32, a.at(t).1 as i32);
        assert(c@ == a.at(t));
        assert(a.blocks(t) == b.blocks(t));
    }
}

proof fn lemma_propagate_view(a: Scene, b: Scene, s: Scratch, o: (int, int))
    requires
        same_view(a, b),
    ensures
        a.propagate_from(s, o) == b.propagate_from(s, o),
{
    let s1 = if o.0 >= 0 {
        a.apply_ray(s, (o.0 + 1, o.1), o)
    } else {
        s
    };
    lemma_apply_ray_view(a, b, s, (o.0 + 1, o.1), o);
    let s2 = if o.1 >= 0 {
        a.apply_ray(s1, (o.0, o.1 + 1), o)
    } else {
        s1
    };
    lemma_apply_ray_view(a, b, s1, (o.0, o.1 + 1), o);
    let s3 = if o.0 <= 0 {
        a.apply_ray(s2, (o.0 - 1, o.1), o)
    } else {
        s2
    };
    lemma_apply_ray_view(a, b, s2, (o.0 - 1, o.1), o);
    lemma_apply_ray_view(a, b, s3, (o.0, o.1 - 1), o);
}

proof fn lemma_sweep_ring_view(a: Scene, b: Scene, s: Scratch, d: int, n: int)
    requires
        same_view(a, b),
    ensures
        a.sweep_ring(s, d, n) == b.sweep_ring(s, d, n),
    decreases n,
{
    if n > 0 {
        lemma_sweep_ring_view(a, b, s, d, n - 1);
        lemma_propagate_view(a, b, a.sweep_ring(s, d, n - 1), ring_point(d, n - 1));
    }
}

proof fn lemma_sweep_view(a: Scene, b: Scene, s: Scratch, k: int)
    requires
        same_view(a, b),
    ensures
        a.sweep(s, k) == b.sweep(s, k),
    decreases k,
{
    if k > 0 {
        lemma_sweep_view(a, b, s, k - 1);
        lemma_sweep_ring_view(a, b, a.sweep(s, k - 1), k, 4 * k);
    }
}

/// Only the walls on the map matter: two wall sets that agree on the map's
/// bounds give the same visible cells.
pub proof fn lemma_fov_local(
    origin: Coord,
    range: u32,
    area: (Coord, Coord),
    walls1: Set<Coord>,
    walls2: Set<Coord>,
)
    requires
        same_walls_on(area, walls1, walls2),
    ensures
        Scene::of(origin, range as int, area, walls1).fov() == Scene::of(
            origin,
            range as int,
            area,
            walls2,
        ).fov(),
{
    let a = Scene::of(origin, range as int, area, walls1);
    let b = Scene::of(origin, range as int, area, walls2);
    lemma_propagate_view(a, b, a.start(), (0, 0));
    assert(a.seeded() == b.seeded());
    lemma_sweep_view(a, b, a.seeded(), a.range - 1);
    assert(a.swept() == b.swept());
    assert(a.fov() =~= b.fov());
}

/// On an unchanged map (the same bounds, and walls that agree on them), the
/// cells visible with view range `r` are visible with any larger view range
/// `r2` too, and lie in the window of range `r`.
pub proof fn lemma_visibility_monotone(
    origin: Coord,
    r: u32,
    r2: u32,
    area: (Coord, Coord),
    walls: Set<Coord>,
    walls2: Set<Coord>,
)
    requires
        r < r2,
        same_walls_on(area, walls, walls2),
    ensures
        Scene::of(origin, r as int, area, walls).fov().subset_of(
            Scene::of(origin, r2 as int, area, walls2).fov().intersect(
                window(Scene::of(origin, r as int, area, walls)),
            ),
        ),
{
    lemma_fov_local(origin, r2, area, walls, walls2);
    let a = Scene::of(origin, r as int, area, walls);
    let b = Scene::of(origin, r2 as int, area, walls);
    assert forall|c: Coord| a.fov().contains(c) implies b.fov().contains(c) && window(a).contains(c) by {
        let q = a.offset_of(c);
        if c@ != a.origin {
            lemma_swept_support(a, q);
            lemma_swept_agree(a, b, q);
        }
    }
}

/// No cell of the map blocks the view.
pub open spec fn open_map(sc: Scene) -> bool {
    forall|c: Coord| in_area(sc.area, c@) ==> !sc.walls.contains(c)
}

/// No record holds a shadow or is absorbed.
spec fn unshadowed(s: Scratch) -> bool {
    forall|q: (int, int)|
        (#[trigger] s(q)).obs == (0int, 0int) && s(q).err == (0int, 0int) && !s(q).ignore
}

proof fn lemma_apply_ray_open(sc: Scene, s: Scratch, t: (int, int), src: (int, int))
    requires
        open_map(sc),
        unshadowed(s),
    ensures
        unshadowed(sc.apply_ray(s, t, src)),
{
    if sc.in_map(t) && sc.in_range(t) {
        let c = Coord(sc.at(t).0 as i32, sc.at(t).1 as i32);
        assert(c@ == sc.at(t));
        assert(!sc.blocks(t));
        assert(s(src).obs == (0int, 0int));
        assert(s(t).obs == (0int, 0int));
    }
}

proof fn lemma_propagate_open(sc: Scene, s: Scratch, o: (int, int))
    requires
        open_map(sc),
        unshadowed(s),
    ensures
        unshadowed(sc.propagate_from(s, o)),
{
    let s1 = if o.0 >= 0 {
        sc.apply_ray(s, (o.0 + 1, o.1), o)
    } else {
        s
    };
    lemma_apply_ray_open(sc, s, (o.0 + 1, o.1), o);
    let s2 = if o.1 >= 0 {
        sc.apply_ray(s1, (o.0, o.1 + 1), o)
    } else {
        s1
    };
    lemma_apply_ray_open(sc, s1, (o.0, o.1 + 1), o);
    let s3 = if o.0 <= 0 {
        sc.apply_ray(s2, (o.0 - 1, o.1), o)
    } else {
        s2
    };
    lemma_apply_ray_open(sc, s2, (o.0 - 1, o.1), o);
    lemma_apply_ray_open(sc, s3, (o.0, o.1 - 1), o);
}

proof fn lemma_sweep_ring_open(sc: Scene, s: Scratch, d: int, n: int)
    requires
        open_map(sc),
        unshadowed(s),
    ensures
        unshadowed(sc.sweep_ring(s, d, n)),
    decreases n,
{
    if n > 0 {
        lemma_sweep_ring_open(sc, s, d, n - 1);
        lemma_propagate_open(sc, sc.sweep_ring(s, d, n - 1), ring_point(d, n - 1));
    }
}

proof fn lemma_sweep_open(sc: Scene, s: Scratch, k: int)
    requires
        open_map(sc),
        unshadowed(s),
    ensures
        unshadowed(sc.sweep(s, k)),
    decreases k,
{
    if k > 0 {
        lemma_sweep_open(sc, s, k - 1);
        lemma_sweep_ring_open(sc, sc.sweep(s, k - 1), k, 4 * k);
    }
}

/// A reached cell stays reached.
proof fn lemma_propagate_keeps_visited(sc: Scene, s: Scratch, o: (int, int), q: (int, int))
    requires
        s(q).visited,
    ensures
        sc.propagate_from(s, o)(q).visited,
{
}

proof fn lemma_sweep_ring_keeps_visited(sc: Scene, s: Scratch, d: int, n0: int, n: int, q: (int, int))
    requires
        n0 <= n,
        sc.sweep_ring(s, d, n0)(q).visited,
    ensures
        sc.sweep_ring(s, d, n)(q).visited,
    decreases n,
{
    if n > n0 && n > 0 {
        lemma_sweep_ring_keeps_visited(sc, s, d, n0, n - 1, q);
        lemma_propagate_keeps_visited(sc, sc.sweep_ring(s, d, n - 1), ring_point(d, n - 1), q);
    }
}

proof fn lemma_sweep_keeps_visited(sc: Scene, s: Scratch, k0: int, k: int, q: (int, int))
    requires
        k0 <= k,
        sc.sweep(s, k0)(q).visited,
    ensures
        sc.sweep(s, k)(q).visited,
    decreases k,
{
    if k > k0 && k > 0 {
        lemma_sweep_keeps_visited(sc, s, k0, k - 1, q);
        lemma_sweep_ring_keeps_visited(sc, sc.sweep(s, k - 1), k, 0, 4 * k, q);
    }
}

/// The position of `p` along ring `dist(p)`.
proof fn lemma_ring_index(p: (int, int)) -> (j: int)
    requires
        dist(p) >= 1,
    ensures
        0 <= j < 4 * dist(p),
        ring_point(dist(p), j) == p,
{
    let d = dist(p);
    if p.0 > 0 && p.1 >= 0 {
        p.1
    } else if p.0 <= 0 && p.1 > 0 {
        d - p.0
    } else if p.0 < 0 && p.1 <= 0 {
        3 * d + p.0
    } else {
        3 * d + p.0
    }
}

/// Propagating from `p` reaches its outward neighbour `q`.
proof fn lemma_propagate_reaches(sc: Scene, s: Scratch, p: (int, int), q: (int, int))
    requires
        sc.in_map(p),
        !s(p).ignore,
        sc.in_map(q),
        sc.in_range(q),
        (q == (p.0 + 1, p.1) && p.0 >= 0) || (q == (p.0, p.1 + 1) && p.1 >= 0) || (q == (p.0
            - 1, p.1) && p.0 <= 0) || (q == (p.0, p.1 - 1) && p.1 <= 0),
    ensures
        sc.propagate_from(s, p)(q).visited,
{
}

/// On an open map with the origin on it, every map cell of the window
/// within Manhattan distance `range` is reached by the sweep.
proof fn lemma_open_reached(sc: Scene, q: (int, int))
    requires
        open_map(sc),
        in_area(sc.area, sc.origin),
        sc.in_map(q),
        1 <= dist(q) <= sc.range,
    ensures
        sc.swept()(q).visited,
{
    let p = if q.0 > 0 {
        (q.0 - 1, q.1)
    } else if q.0 < 0 {
        (q.0 + 1, q.1)
    } else if q.1 > 0 {
        (q.0, q.1 - 1)
    } else {
        (q.0, q.1 + 1)
    };
    let d = dist(p);
    assert(d + 1 == dist(q));
    assert(sc.in_map(p));
    assert(unshadowed(sc.start()));
    lemma_propagate_open(sc, sc.start(), (0, 0));
    if d == 0 {
        lemma_propagate_reaches(sc, sc.start(), p, q);
        lemma_sweep_keeps_visited(sc, sc.seeded(), 0, sc.range - 1, q);
    } else {
        let x = sc.sweep(sc.seeded(), d - 1);
        lemma_sweep_open(sc, sc.seeded(), d - 1);
        let j = lemma_ring_index(p);
        lemma_sweep_ring_open(sc, x, d, j);
        lemma_propagate_reaches(sc, sc.sweep_ring(x, d, j), p, q);
        lemma_sweep_ring_keeps_visited(sc, x, d, j + 1, 4 * d, q);
        lemma_sweep_keeps_visited(sc, sc.seeded(), d, sc.range - 1, q);
    }
}

/// On a map without walls, with the observer on it, the visible cells are
/// exactly the map cells within Manhattan distance `range` of the observer:
/// the diamond, cut by the map's bounds, with no gap on any side.
pub proof fn lemma_open_map_diamond(origin: Coord, range: u32, area: (Coord, Coord), walls: Set<Coord>)
    requires
        in_area(area, origin@),
        forall|c: Coord| in_area(area, c@) ==> !walls.contains(c),
    ensures
        ({
            let sc = Scene::of(origin, range as int, area, walls);
            sc.fov() == Set::new(|c: Coord| in_area(area, c@) && dist(sc.offset_of(c)) <= range)
        }),
{
    let sc = Scene::of(origin, range as int, area, walls);
    let diamond = Set::new(|c: Coord| in_area(area, c@) && dist(sc.offset_of(c)) <= range);
    assert(unshadowed(sc.start()));
    lemma_propagate_open(sc, sc.start(), (0, 0));
    lemma_sweep_open(sc, sc.seeded(), sc.range - 1);
    assert forall|c: Coord| sc.fov().contains(c) == diamond.contains(c) by {
        let q = sc.offset_of(c);
        if c@ != sc.origin {
            lemma_swept_support(sc, q);
            if in_area(area, c@) && dist(q) <= range {
                lemma_open_reached(sc, q);
            }
        }
    }
    assert(sc.fov() =~= diamond);
}

/// Sweep states of a map with a wall at offset `w` (`s1`) and of the same map
/// without it (`s2`): equal on every other cell up to the wall's distance,
/// and at the wall equally reached and equally absorbed.
spec fn paired(s1: Scratch, s2: Scratch, w: (int, int)) -> bool {
    &&& forall|q: (int, int)| dist(q) <= dist(w) && q != w ==> #[trigger] s1(q) == s2(q)
    &&& s1(w).visited == s2(w).visited
    &&& s1(w).ignore == s2(w).ignore
}

/// Scene `a` has a wall at map cell `c`, scene `b` is the same but for that
/// wall.
spec fn wall_added(a: Scene, b: Scene, c: Coord) -> bool {
    &&& a.origin == b.origin
    &&& a.area == b.area
    &&& a.range == b.range
    &&& forall|d: Coord| d != c ==> (a.walls.contains(d) <==> b.walls.contains(d))
}

proof fn lemma_apply_ray_paired(
    a: Scene,
    b: Scene,
    c: Coord,
    s1: Scratch,
    s2: Scratch,
    t: (int, int),
    src: (int, int),
)
    requires
        wall_added(a, b, c),
        paired(s1, s2, a.offset_of(c)),
        dist(t) == dist(src) + 1,
    ensures
        paired(a.apply_ray(s1, t, src), b.apply_ray(s2, t, src), a.offset_of(c)),
{
    let w = a.offset_of(c);
    let r1 = a.apply_ray(s1, t, src);
    let r2 = b.apply_ray(s2, t, src);
    if dist(t) <= dist(w) {
        assert(s1(src) == s2(src));
        if t != w {
            assert(s1(t) == s2(t));
            if a.in_map(t) {
                let ct = Coord(a.at(t).0 as i32, a.at(t).1 as i32);
                assert(ct@ == a.at(t));
                assert(ct != c);
                assert(a.blocks(t) == b.blocks(t));
            }
        }
    }
    assert forall|q: (int, int)| dist(q) <= dist(w) && q != w implies #[trigger] r1(q) == r2(q) by {
        assert(s1(q) == s2(q));
    }
}

proof fn lemma_propagate_paired(a: Scene, b: Scene, c: Coord, s1: Scratch, s2: Scratch, o: (int, int))
    requires
        wall_added(a, b, c),
        paired(s1, s2, a.offset_of(c)),
    ensures
        paired(a.propagate_from(s1, o), b.propagate_from(s2, o), a.offset_of(c)),
{
    let w = a.offset_of(c);
    if dist(o) < dist(w) || o == w {
        if o != w {
            assert(s1(o) == s2(o));
        }
        let x1 = if o.0 >= 0 { a.apply_ray(s1, (o.0 + 1, o.1), o) } else { s1 };
        let x2 = if o.0 >= 0 { b.apply_ray(s2, (o.0 + 1, o.1), o) } else { s2 };
        if o.0 >= 0 {
            lemma_apply_ray_paired(a, b, c, s1, s2, (o.0 + 1, o.1), o);
        }
        let y1 = if o.1 >= 0 { a.apply_ray(x1, (o.0, o.1 + 1), o) } else { x1 };
        let y2 = if o.1 >= 0 { b.apply_ray(x2, (o.0, o.1 + 1), o) } else { x2 };
        if o.1 >= 0 {
            lemma_apply_ray_paired(a, b, c, x1, x2, (o.0, o.1 + 1), o);
        }
        let z1 = if o.0 <= 0 { a.apply_ray(y1, (o.0 - 1, o.1), o) } else { y1 };
        let z2 = if o.0 <= 0 { b.apply_ray(y2, (o.0 - 1, o.1), o) } else { y2 };
        if o.0 <= 0 {
            lemma_apply_ray_paired(a, b, c, y1, y2, (o.0 - 1, o.1), o);
        }
        if o.1 <= 0 {
            lemma_apply_ray_paired(a, b, c, z1, z2, (o.0, o.1 - 1), o);
        }
        if o == w {
            let p1 = a.propagate_from(s1, o);
            let p2 = b.propagate_from(s2, o);
            assert forall|q: (int, int)| dist(q) <= dist(w) && q != w implies #[trigger] p1(q) == p2(
                q,
            ) by {
                lemma_propagate_frame(a, s1, o, q);
                lemma_propagate_frame(b, s2, o, q);
                assert(s1(q) == s2(q));
            }
            lemma_propagate_frame(a, s1, o, w);
            lemma_propagate_frame(b, s2, o, w);
        }
    } else {
        let p1 = a.propagate_from(s1, o);
        let p2 = b.propagate_from(s2, o);
        assert forall|q: (int, int)| dist(q) <= dist(w) && q != w implies #[trigger] p1(q) == p2(q) by {
            lemma_propagate_frame(a, s1, o, q);
            lemma_propagate_frame(b, s2, o, q);
            assert(s1(q) == s2(q));
        }
        lemma_propagate_frame(a, s1, o, w);
        lemma_propagate_frame(b, s2, o, w);
    }
}

proof fn lemma_sweep_ring_paired(a: Scene, b: Scene, c: Coord, s1: Scratch, s2: Scratch, d: int, n: int)
    requires
        wall_added(a, b, c),
        paired(s1, s2, a.offset_of(c)),
    ensures
        paired(a.sweep_ring(s1, d, n), b.sweep_ring(s2, d, n), a.offset_of(c)),
    decreases n,
{
    if n > 0 {
        lemma_sweep_ring_paired(a, b, c, s1, s2, d, n - 1);
        lemma_propagate_paired(
            a,
            b,
            c,
            a.sweep_ring(s1, d, n - 1),
            b.sweep_ring(s2, d, n - 1),
            ring_point(d, n - 1),
        );
    }
}

proof fn lemma_sweep_paired(a: Scene, b: Scene, c: Coord, s1: Scratch, s2: Scratch, k: int)
    requires
        wall_added(a, b, c),
        paired(s1, s2, a.offset_of(c)),
    ensures
        paired(a.sweep(s1, k), b.sweep(s2, k), a.offset_of(c)),
    decreases k,
{
    if k > 0 {
        lemma_sweep_paired(a, b, c, s1, s2, k - 1);
        lemma_sweep_ring_paired(a, b, c, a.sweep(s1, k - 1), b.sweep(s2, k - 1), k, 4 * k);
    }
}

/// Turning a visible cell into a wall never hides that cell: it is then
/// seen as a wall, whatever happens to the cells behind it.
pub proof fn lemma_wall_never_hides_itself(
    origin: Coord,
    range: u32,
    area: (Coord, Coord),
    walls: Set<Coord>,
    c: Coord,
)
    requires
        walls.contains(c),
        Scene::of(origin, range as int, area, walls.remove(c)).fov().contains(c),
    ensures
        Scene::of(origin, range as int, area, walls).fov().contains(c),
{
    let a = Scene::of(origin, range as int, area, walls);
    let b = Scene::of(origin, range as int, area, walls.remove(c));
    if c@ != a.origin {
        let w = a.offset_of(c);
        assert(a.start() == b.start());
        lemma_propagate_paired(a, b, c, a.start(), b.start(), (0, 0));
        lemma_sweep_paired(a, b, c, a.seeded(), b.seeded(), a.range - 1);
        assert(walls_marked(a, a.start()));
        lemma_propagate_walls(a, a.start(), (0, 0));
        lemma_sweep_walls(a, a.seeded(), a.range - 1);
        assert(a.at(w) == c@);
        assert(Coord(a.at(w).0 as i32, a.at(w).1 as i32) == c);
        assert(a.swept()(w).is_wall());
    }
}

} // verus!
