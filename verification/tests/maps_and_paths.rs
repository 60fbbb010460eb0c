use tower_defense::grid::{CellType, GridPos, PathGrid};
use tower_defense::level_gen::{fallback_zone_rects, generate_startup_seed, seed_from_millis, wave_seed};
use tower_defense::obstacles::{
    count_obstacles, generate_fallback_path, generate_procedural_map, generate_procedural_map_with_density,
    generate_procedural_map_with_random_sides, generate_random_strategic_path, obstacle_layout,
    validate_path_length_requirement,
};
use tower_defense::path_cache::{CacheMetrics, PathCache};
use tower_defense::pathfinding::{find_path, identify_path_chokepoints, validate_path_quality, ChokePointType};

fn on_border(g: &PathGrid, p: GridPos) -> bool {
    p.x == 0 || p.y == 0 || p.x + 1 == g.width || p.y + 1 == g.height
}

fn check_layout(g: &PathGrid) {
    for y in 0..g.height {
        for x in 0..g.width {
            let c = g.get_cell(GridPos::new(x, y)).unwrap();
            assert!(c == CellType::Empty || c == CellType::Blocked);
            if c == CellType::Blocked {
                assert!(!on_border(g, GridPos::new(x, y)));
            }
        }
    }
}

#[test]
fn shortest_path_goes_around_a_wall() {
    let mut g = PathGrid::new(5, 5);
    for y in 0..4 {
        g.set_cell(GridPos::new(2, y), CellType::Blocked);
    }
    let p = find_path(&g, GridPos::new(0, 0), GridPos::new(4, 0)).unwrap();
    assert_eq!(p.len(), 13);
    assert_eq!(p[0], GridPos::new(0, 0));
    assert_eq!(p[12], GridPos::new(4, 0));
    for w in p.windows(2) {
        assert_eq!(w[0].manhattan_distance(&w[1]), 1);
    }
}

#[test]
fn no_path_through_a_full_wall() {
    let mut g = PathGrid::new(5, 5);
    for y in 0..5 {
        g.set_cell(GridPos::new(2, y), CellType::Blocked);
    }
    assert!(find_path(&g, GridPos::new(0, 0), GridPos::new(4, 4)).is_none());
    assert!(find_path(&g, GridPos::new(2, 2), GridPos::new(2, 2)).is_none());
    assert_eq!(find_path(&g, GridPos::new(1, 1), GridPos::new(1, 1)).unwrap(), vec![GridPos::new(1, 1)]);
}

#[test]
fn largest_empty_rectangle() {
    let mut g = PathGrid::new(4, 3);
    g.set_cell(GridPos::new(0, 0), CellType::Blocked);
    g.set_cell(GridPos::new(3, 2), CellType::Blocked);
    let (tl, br) = g.find_largest_empty_rect().unwrap();
    let area = (br.x - tl.x + 1) * (br.y - tl.y + 1);
    assert_eq!(area, 6);
    for y in tl.y..=br.y {
        for x in tl.x..=br.x {
            assert_eq!(g.get_cell(GridPos::new(x, y)), Some(CellType::Empty));
        }
    }
}

#[test]
fn neighbors_and_counts() {
    let g = PathGrid::new(3, 3);
    assert_eq!(GridPos::new(0, 0).neighbors(3, 3), vec![GridPos::new(0, 1), GridPos::new(1, 0)]);
    assert_eq!(g.count_empty_neighbors(GridPos::new(1, 1)), 4);
    assert_eq!(GridPos::new(1, 2).manhattan_distance(&GridPos::new(4, 0)), 5);
}

#[test]
fn path_quality_checks() {
    let zigzag = vec![
        GridPos::new(0, 0),
        GridPos::new(1, 0),
        GridPos::new(1, 1),
        GridPos::new(2, 1),
        GridPos::new(2, 2),
    ];
    assert!(validate_path_quality(&zigzag, 3, 10));
    assert!(!validate_path_quality(&zigzag, 6, 10));
    let straight = vec![GridPos::new(0, 0), GridPos::new(1, 0), GridPos::new(2, 0)];
    assert!(!validate_path_quality(&straight, 1, 10));
}

#[test]
fn chokepoints_on_a_corridor() {
    let mut g = PathGrid::new(5, 3);
    for x in 0..5 {
        g.set_cell(GridPos::new(x, 0), CellType::Blocked);
        g.set_cell(GridPos::new(x, 2), CellType::Blocked);
    }
    let path: Vec<GridPos> = (0..5).map(|x| GridPos::new(x, 1)).collect();
    let cps = identify_path_chokepoints(&g, &path);
    assert_eq!(cps.len(), 5);
    assert!(cps.iter().all(|(_, k)| *k == ChokePointType::ObstacleChokePoint));
}

#[test]
fn generated_maps_keep_a_clear_border_and_a_way_through() {
    for seed in [1u64, 7, 42, 1234] {
        let g = generate_procedural_map(seed, 60);
        assert_eq!((g.width, g.height), (32, 18));
        assert_eq!(g.entry_point.x, 0);
        assert!((6..12).contains(&g.entry_point.y));
        assert_eq!(g.exit_point.x, 31);
        assert!((6..12).contains(&g.exit_point.y));
        check_layout(&g);
        assert!(find_path(&g, g.entry_point, g.exit_point).is_some());
    }
}

#[test]
fn generation_is_fixed_by_the_seed() {
    let a = generate_procedural_map(99, 40);
    let b = generate_procedural_map(99, 40);
    assert_eq!(a.cells, b.cells);
    assert_eq!(a.entry_point, b.entry_point);
    let with_obstacles = (0..200u64).any(|s| {
        let g = generate_procedural_map_with_density(s, 30);
        g.cells.iter().flatten().any(|c| *c == CellType::Blocked)
    });
    assert!(with_obstacles);
}

#[test]
fn random_sides_are_opposite() {
    for seed in 0..20u64 {
        let g = generate_procedural_map_with_random_sides(seed, 20);
        let (e, x) = (g.entry_point, g.exit_point);
        let opposite = (e.y == 0 && x.y == 17) || (e.y == 17 && x.y == 0) || (e.x == 0 && x.x == 31) || (e.x == 31 && x.x == 0);
        assert!(opposite, "{:?} {:?}", e, x);
        check_layout(&g);
        assert!(find_path(&g, e, x).is_some());
    }
}

#[test]
fn density_map_entry_rows() {
    let g = generate_procedural_map_with_density(5, 10);
    assert!((4..14).contains(&g.entry_point.y));
    assert!((4..14).contains(&g.exit_point.y));
    check_layout(&g);
}

#[test]
fn length_requirement() {
    let mut g = PathGrid::new_unified();
    g.entry_point = GridPos::new(0, 0);
    g.exit_point = GridPos::new(2, 0);
    let short = vec![GridPos::new(0, 0), GridPos::new(1, 0), GridPos::new(2, 0)];
    assert!(!validate_path_length_requirement(&short, &g));
    let long = vec![
        GridPos::new(0, 0),
        GridPos::new(0, 1),
        GridPos::new(0, 2),
        GridPos::new(1, 2),
        GridPos::new(2, 2),
    ];
    assert!(validate_path_length_requirement(&long, &g));
    assert!(!validate_path_length_requirement(&[], &g));
}

#[test]
fn fallback_path_runs_from_start_to_end() {
    let g = PathGrid::new_unified();
    let p = generate_fallback_path(GridPos::new(0, 9), GridPos::new(31, 9), &g);
    assert_eq!(p.len(), 32);
    let q = generate_fallback_path(GridPos::new(5, 5), GridPos::new(6, 5), &g);
    assert_eq!(q[0], GridPos::new(5, 5));
    assert_eq!(*q.last().unwrap(), GridPos::new(6, 5));
    assert!(q.len() > 2);
}

#[test]
fn strategic_path_meets_the_length_requirement_or_falls_back() {
    let g = PathGrid::new_unified();
    let waypoints = vec![g.entry_point, GridPos::new(10, 3), GridPos::new(20, 14), g.exit_point];
    let p = generate_random_strategic_path(&g, &waypoints);
    assert!(validate_path_length_requirement(&p, &g) || (p[0] == g.entry_point && *p.last().unwrap() == g.exit_point));
    assert_eq!(p[0], g.entry_point);
}

#[test]
fn obstacle_layout_lists_blocked_cells_in_row_order() {
    let mut g = PathGrid::new(4, 4);
    g.set_cell(GridPos::new(2, 1), CellType::Blocked);
    g.set_cell(GridPos::new(1, 3), CellType::Blocked);
    g.set_cell(GridPos::new(0, 1), CellType::Blocked);
    let obstacles = obstacle_layout(&g, 3);
    let positions: Vec<GridPos> = obstacles.iter().map(|o| o.position).collect();
    assert_eq!(positions, vec![GridPos::new(0, 1), GridPos::new(2, 1), GridPos::new(1, 3)]);
    assert_eq!(obstacle_layout(&g, 3), obstacles);
}

#[test]
fn seeds() {
    assert_eq!(seed_from_millis(42), 46347652635);
    assert_eq!(seed_from_millis(u64::MAX), 0u64.wrapping_sub(1103515245).wrapping_add(12345));
    assert_eq!(wave_seed(1), 80235);
    assert_eq!(wave_seed(0), 67890);
    let s = generate_startup_seed();
    assert_ne!(s, seed_from_millis(42));
}

#[test]
fn fallback_zones_fit_the_map() {
    assert_eq!(fallback_zone_rects(&PathGrid::new_unified()).len(), 6);
    let small = PathGrid::new(5, 5);
    assert_eq!(fallback_zone_rects(&small), vec![(GridPos::new(2, 1), GridPos::new(4, 3))]);
}

#[test]
fn cache_evicts_least_recently_used() {
    let mut c: PathCache<u32> = PathCache::new(2);
    c.insert_with_eviction(1, 10);
    c.insert_with_eviction(2, 20);
    assert_eq!(c.get_cached(1), Some(10));
    c.insert_with_eviction(3, 30);
    assert!(c.contains(1));
    assert!(!c.contains(2));
    assert!(c.contains(3));
    assert_eq!(c.len(), 2);
    assert_eq!(c.get_cached(2), None);
    c.insert_with_eviction(1, 11);
    assert_eq!(c.get_cached(1), Some(11));
    assert_eq!(c.stats().entries, 2);
    assert_eq!(c.stats().capacity, 2);
    c.clear();
    assert_eq!(c.len(), 0);
}

#[test]
fn zero_capacity_cache_keeps_one_entry() {
    let mut c: PathCache<&str> = PathCache::new(0);
    c.insert_with_eviction(5, "a");
    c.insert_with_eviction(6, "b");
    assert_eq!(c.len(), 1);
    assert_eq!(c.get_cached(6), Some("b"));
}

#[test]
fn cache_metrics_count() {
    let mut m = CacheMetrics::default();
    m.record_hit();
    m.record_miss();
    m.record_miss();
    assert_eq!(m, CacheMetrics { hits: 1, misses: 2, generations: 2 });
}

#[test]
fn counting_obstacles() {
    let mut g = PathGrid::new(4, 3);
    assert_eq!(count_obstacles(&g), 0);
    g.set_cell(GridPos::new(1, 1), CellType::Blocked);
    g.set_cell(GridPos::new(3, 2), CellType::Blocked);
    g.set_cell(GridPos::new(0, 0), CellType::Path);
    g.set_cell(GridPos::new(2, 0), CellType::TowerZone);
    assert_eq!(count_obstacles(&g), 2);
}

#[test]
fn counting_obstacles_of_a_generated_map() {
    let g = generate_procedural_map(78435, 40);
    let mut expected = 0;
    for y in 0..g.height {
        for x in 0..g.width {
            if g.get_cell(GridPos::new(x, y)) == Some(CellType::Blocked) {
                expected += 1;
            }
        }
    }
    assert_eq!(count_obstacles(&g), expected);
    assert!(expected > 0);
}

#[test]
fn get_or_generate_generates_once() {
    let mut cache: PathCache<u64> = PathCache::new(2);
    let calls = std::cell::Cell::new(0u32);
    let gen = |seed: u64| {
        calls.set(calls.get() + 1);
        seed * 2
    };
    assert_eq!(cache.get_or_generate(5, &gen), 10);
    assert_eq!(cache.get_or_generate(5, &gen), 10);
    assert_eq!(calls.get(), 1);
    assert_eq!(cache.get_or_generate(7, &gen), 14);
    assert_eq!(cache.get_or_generate(9, &gen), 18);
    assert_eq!(calls.get(), 3);
    assert!(!cache.contains(5));
    assert!(cache.contains(7));
    assert!(cache.contains(9));
}

#[test]
fn pregenerating_wave_maps() {
    let mut cache: PathCache<u64> = PathCache::new(20);
    cache.pregenerate_paths(1, 5, |seed: u64| seed + 1);
    assert_eq!(cache.len(), 5);
    for wave in 1..=5u32 {
        let seed = wave_seed(wave);
        assert!(cache.contains(seed));
        assert_eq!(cache.get_cached(seed), Some(seed + 1));
    }
    assert!(!cache.contains(wave_seed(6)));
    cache.pregenerate_paths(4, 3, |_seed: u64| 0);
    assert_eq!(cache.len(), 6);
    assert_eq!(cache.get_cached(wave_seed(4)), Some(wave_seed(4) + 1));
    assert_eq!(cache.get_cached(wave_seed(6)), Some(0));
}

#[test]
fn pregenerating_into_a_small_cache_keeps_the_latest() {
    let mut cache: PathCache<u64> = PathCache::new(2);
    cache.pregenerate_paths(1, 5, |seed: u64| seed);
    assert_eq!(cache.len(), 2);
    assert!(cache.contains(wave_seed(4)));
    assert!(cache.contains(wave_seed(5)));
    assert!(!cache.contains(wave_seed(3)));
}
