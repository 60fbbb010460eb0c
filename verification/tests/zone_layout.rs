use tower_defense::grid::{CellType, GridPos, PathGrid};
use tower_defense::zones::{
    calculate_curve_inside_direction, curve_sites, curve_zone_centers, find_zone_bounds_from_position,
    is_area_suitable_for_zone, is_chokepoint, is_enhanced_chokepoint, minimum_zone_positions,
};

fn p(x: usize, y: usize) -> GridPos {
    GridPos::new(x, y)
}

#[test]
fn chokepoints_by_empty_neighbours() {
    let mut g = PathGrid::new(5, 5);
    assert!(!is_chokepoint(&g, p(2, 2)));
    g.set_cell(p(2, 1), CellType::Blocked);
    assert!(is_chokepoint(&g, p(2, 2)));
    // a corner cell has only two neighbours
    let open = PathGrid::new(5, 5);
    assert!(is_chokepoint(&open, p(0, 0)));
}

#[test]
fn enhanced_chokepoints() {
    let g = PathGrid::new(9, 9);
    let straight = vec![p(2, 4), p(3, 4), p(4, 4), p(5, 4)];
    assert!(!is_enhanced_chokepoint(&g, p(3, 4), &straight, 1));
    let bend = vec![p(3, 4), p(4, 4), p(4, 5)];
    assert!(is_enhanced_chokepoint(&g, p(4, 4), &bend, 1));
    let mut walled = PathGrid::new(9, 9);
    for x in 2..=6 {
        walled.set_cell(p(x, 2), CellType::Blocked);
        walled.set_cell(p(x, 6), CellType::Blocked);
    }
    // ten blocked cells in the five by five square, four empty neighbours
    assert!(is_enhanced_chokepoint(&walled, p(4, 4), &straight, 5));
    assert!(!is_enhanced_chokepoint(&g, p(4, 4), &straight, 5));
}

#[test]
fn zone_suitability() {
    let mut g = PathGrid::new(6, 6);
    assert!(is_area_suitable_for_zone(&g, p(1, 1), p(2, 2)));
    assert!(!is_area_suitable_for_zone(&g, p(2, 2), p(1, 1)));
    assert!(!is_area_suitable_for_zone(&g, p(4, 4), p(6, 5)));
    g.set_cell(p(1, 1), CellType::TowerZone);
    assert!(is_area_suitable_for_zone(&g, p(1, 1), p(2, 2)));
    g.set_cell(p(2, 1), CellType::TowerZone);
    assert!(!is_area_suitable_for_zone(&g, p(1, 1), p(2, 2)));
    g.set_cell(p(4, 4), CellType::Path);
    assert!(!is_area_suitable_for_zone(&g, p(3, 3), p(4, 4)));
    g.set_cell(p(0, 5), CellType::Blocked);
    assert!(!is_area_suitable_for_zone(&g, p(0, 4), p(1, 5)));
}

#[test]
fn zone_bounds_from_a_position() {
    let g = PathGrid::new_unified();
    assert_eq!(find_zone_bounds_from_position(&g, p(1, 1), 2, 4), Some((p(1, 1), p(2, 2))));
    assert_eq!(find_zone_bounds_from_position(&g, p(1, 1), 2, 3), None);
    assert_eq!(find_zone_bounds_from_position(&g, p(1, 1), 3, 4), None);
    assert_eq!(find_zone_bounds_from_position(&g, p(1, 1), 2, 2), None);
    assert_eq!(find_zone_bounds_from_position(&g, p(31, 17), 2, 4), Some((p(31, 17), p(31, 17))));
    let mut h = PathGrid::new_unified();
    h.set_cell(p(2, 2), CellType::Blocked);
    assert_eq!(find_zone_bounds_from_position(&h, p(1, 1), 2, 4), None);
}

#[test]
fn inside_direction_of_turns() {
    assert_eq!(calculate_curve_inside_direction(p(0, 0), p(1, 0), p(1, 1)), (-1, 1));
    assert_eq!(calculate_curve_inside_direction(p(1, 1), p(1, 0), p(0, 0)), (-1, 1));
    assert_eq!(calculate_curve_inside_direction(p(0, 0), p(1, 0), p(2, 0)), (0, 0));
}

#[test]
fn zone_centers_around_a_turn() {
    let g = PathGrid::new_unified();
    assert_eq!(curve_zone_centers(&g, p(1, 0), (-1, 1)), (p(1, 2), p(4, 2)));
    assert_eq!(curve_zone_centers(&g, p(10, 9), (1, 0)), (p(12, 9), p(7, 9)));
    assert_eq!(curve_zone_centers(&g, p(31, 17), (1, 1)), (p(30, 16), p(28, 14)));
}

#[test]
fn turn_sites_of_a_path() {
    let path = vec![p(0, 0), p(1, 0), p(2, 0), p(2, 1), p(2, 2), p(3, 2)];
    assert_eq!(curve_sites(&path), vec![2, 4]);
    assert_eq!(curve_sites(&path[..2]), Vec::<usize>::new());
}

#[test]
fn fallback_zone_positions() {
    let g = PathGrid::new_unified();
    assert_eq!(minimum_zone_positions(&g), vec![p(1, 1), p(29, 1), p(1, 15), p(29, 15)]);
}
