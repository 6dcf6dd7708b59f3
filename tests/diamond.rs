use diamond_los::{ArrayMapProvider, CellData, Coord, DiamondLos, LosAlgorithm};

fn visible_cells(map: &ArrayMapProvider) -> Vec<(i32, i32)> {
    let (width, height) = map.size();
    let mut cells = Vec::new();
    for y in 0..height as i32 {
        for x in 0..width as i32 {
            if map.is_visible(Coord(x, y)) {
                cells.push((x, y));
            }
        }
    }
    cells
}

#[test]
fn test_empty() {
    let mut map = ArrayMapProvider::new((5, 5));
    let mut alg = DiamondLos::new(5);
    alg.compute_los(Coord(2, 2), 10, &mut map);

    let map_str = map.render();
    let expected_str = "\
[.....]
[.....]
[.....]
[.....]
[.....]
";
    assert_eq!(map_str, expected_str);
}

#[test]
fn test_vision_field() {
    let mut map = ArrayMapProvider::new((5, 5));
    let mut alg = DiamondLos::new(4);
    alg.compute_los(Coord(1, 0), 4, &mut map);

    let map_str = map.render();
    let expected_str = "\
[.....]
[.....]
[.... ]
[...  ]
[ .   ]
";
    assert_eq!(map_str, expected_str);
}

#[test]
fn test_vision_walls_aligned() {
    let mut map = ArrayMapProvider::new((5, 5));
    map.set_wall(Coord(2, 0), true);
    map.set_wall(Coord(3, 0), true);
    map.set_wall(Coord(0, 2), true);
    let mut alg = DiamondLos::new(5);
    alg.compute_los(Coord(0, 0), 10, &mut map);

    let map_str = map.render();
    let expected_str = "\
[..Xx ]
[.....]
[X....]
[ ....]
[ ....]
";
    assert_eq!(map_str, expected_str);
}

#[test]
fn test_vision_walls() {
    let mut map = ArrayMapProvider::new((5, 5));
    map.set_wall(Coord(3, 1), true);
    map.set_wall(Coord(2, 2), true);
    let mut alg = DiamondLos::new(5);
    alg.compute_los(Coord(0, 0), 10, &mut map);

    let map_str = map.render();
    let expected_str = "\
[.....]
[...X ]
[..X  ]
[.... ]
[.....]
";
    assert_eq!(map_str, expected_str);
}

#[test]
fn origin_visible_with_zero_range() {
    let mut map = ArrayMapProvider::new((5, 5));
    let mut alg = DiamondLos::new(0);
    alg.compute_los(Coord(2, 3), 0, &mut map);
    assert_eq!(visible_cells(&map), vec![(2, 3)]);
}

#[test]
fn origin_visible_when_standing_on_wall() {
    let mut map = ArrayMapProvider::new((5, 5));
    map.set_wall(Coord(1, 1), true);
    let mut alg = DiamondLos::new(3);
    alg.compute_los(Coord(1, 1), 3, &mut map);
    assert!(map.is_visible(Coord(1, 1)));
}

#[test]
fn range_one_shows_the_cross() {
    let mut map = ArrayMapProvider::new((5, 5));
    let mut alg = DiamondLos::new(1);
    alg.compute_los(Coord(2, 2), 1, &mut map);
    let expected_str = "\
[     ]
[  .  ]
[ ... ]
[  .  ]
[     ]
";
    assert_eq!(map.render(), expected_str);
}

#[test]
fn smaller_range_sees_a_subset() {
    let mut walls = Vec::new();
    walls.push(Coord(3, 1));
    walls.push(Coord(2, 2));
    walls.push(Coord(5, 4));
    for r in 0..6u32 {
        let mut small = ArrayMapProvider::new((7, 7));
        let mut large = ArrayMapProvider::new((7, 7));
        for w in &walls {
            small.set_wall(*w, true);
            large.set_wall(*w, true);
        }
        let mut alg = DiamondLos::new(2);
        alg.compute_los(Coord(1, 1), r, &mut small);
        alg.compute_los(Coord(1, 1), r + 2, &mut large);
        for (x, y) in visible_cells(&small) {
            assert!(large.is_visible(Coord(x, y)), "range {} cell ({}, {})", r, x, y);
        }
    }
}

#[test]
fn wall_in_front_is_seen_and_hides_cell_behind() {
    let mut map = ArrayMapProvider::new((5, 1));
    map.set_wall(Coord(2, 0), true);
    let mut alg = DiamondLos::new(4);
    alg.compute_los(Coord(0, 0), 4, &mut map);
    assert_eq!(map.render(), "[..X  ]\n");
}

#[test]
fn reuse_gives_same_result() {
    let mut first = ArrayMapProvider::new((6, 6));
    first.set_wall(Coord(2, 3), true);
    first.set_wall(Coord(4, 1), true);
    let mut alg = DiamondLos::new(1);
    alg.compute_los(Coord(3, 3), 4, &mut first);
    let once = first.render();
    first.reset();
    assert_eq!(visible_cells(&first), Vec::<(i32, i32)>::new());
    alg.compute_los(Coord(3, 3), 4, &mut first);
    assert_eq!(first.render(), once);
}

#[test]
fn open_map_shows_the_diamond() {
    let mut map = ArrayMapProvider::new((9, 9));
    let mut alg = DiamondLos::new(3);
    alg.compute_los(Coord(4, 4), 3, &mut map);
    for y in 0..9i32 {
        for x in 0..9i32 {
            let inside = (x - 4).abs() + (y - 4).abs() <= 3;
            assert_eq!(map.is_visible(Coord(x, y)), inside, "cell ({}, {})", x, y);
        }
    }
}

#[test]
fn origin_off_the_map_marks_nothing() {
    let mut map = ArrayMapProvider::new((3, 3));
    let mut alg = DiamondLos::new(2);
    alg.compute_los(Coord(-5, -5), 2, &mut map);
    assert_eq!(visible_cells(&map), Vec::<(i32, i32)>::new());
}

#[test]
fn walls_can_be_removed() {
    let mut map = ArrayMapProvider::new((4, 2));
    map.set_wall(Coord(3, 1), true);
    assert!(map.is_wall(Coord(3, 1)));
    map.set_wall(Coord(3, 1), false);
    assert!(!map.is_wall(Coord(3, 1)));
    assert!(!map.is_wall(Coord(4, 1)));
    assert_eq!(map.size(), (4, 2));
}

#[test]
fn cell_record_classification() {
    let fresh = CellData { obs: (0, 0), err: (0, 0), ignore: false, visited: false };
    assert!(!fresh.is_visible());
    assert!(fresh.is_wall());
    assert!(!fresh.is_obstacle());

    let reached = CellData { visited: true, ..fresh };
    assert!(reached.is_visible());

    let wall = CellData { obs: (2, 1), err: (2, 1), ignore: false, visited: true };
    assert!(wall.is_obstacle());
    assert!(wall.is_wall());
    assert!(wall.is_visible());

    let shadow = CellData { obs: (2, 1), err: (1, 2), ignore: false, visited: true };
    assert!(shadow.is_obstacle());
    assert!(!shadow.is_wall());
    assert!(!shadow.is_visible());

    let past_shadow = CellData { obs: (2, 1), err: (3, 0), ignore: false, visited: true };
    assert!(!past_shadow.is_obstacle());
    assert!(past_shadow.is_visible());

    let absorbed = CellData { ignore: true, ..reached };
    assert!(!absorbed.is_visible());
}

#[test]
fn engine_grows_for_a_larger_range() {
    let mut small = ArrayMapProvider::new((9, 9));
    let mut alg = DiamondLos::new(1);
    alg.compute_los(Coord(4, 4), 4, &mut small);
    let mut fresh = ArrayMapProvider::new((9, 9));
    let mut big = DiamondLos::new(4);
    big.compute_los(Coord(4, 4), 4, &mut fresh);
    assert_eq!(small.render(), fresh.render());
    assert_eq!(visible_cells(&small).len(), 41);
}

#[test]
fn marks_accumulate_across_calls() {
    let mut map = ArrayMapProvider::new((7, 1));
    let mut alg = DiamondLos::new(1);
    alg.compute_los(Coord(0, 0), 1, &mut map);
    alg.compute_los(Coord(6, 0), 1, &mut map);
    assert_eq!(map.render(), "[..   ..]\n");
}

#[test]
fn new_engine_starts_at_zero_origin() {
    let alg = DiamondLos::new(2);
    assert!(format!("{:?}", alg).contains("origin: Coord(0, 0)"));
}

#[test]
fn making_a_seen_cell_a_wall_keeps_it_seen() {
    let origin = Coord(2, 2);
    let mut base = ArrayMapProvider::new((6, 6));
    base.set_wall(Coord(4, 3), true);
    let mut alg = DiamondLos::new(4);
    alg.compute_los(origin, 4, &mut base);
    for (x, y) in visible_cells(&base) {
        if Coord(x, y) == origin || base.is_wall(Coord(x, y)) {
            continue;
        }
        let mut walled = ArrayMapProvider::new((6, 6));
        walled.set_wall(Coord(4, 3), true);
        walled.set_wall(Coord(x, y), true);
        alg.compute_los(origin, 4, &mut walled);
        assert!(walled.is_visible(Coord(x, y)), "cell ({}, {})", x, y);
    }
}
