use tower_defense::economy::{Economy, ResourceCost, TowerStats, TowerType};
use tower_defense::tower_panel::{
    popup_cost_text, tower_button_cost_text, upgrade_button_label, upgrade_cost_text, UpgradeButtonLabel,
};
use tower_defense::grid::{GridPos, PathGrid};
use tower_defense::input_registry::{InputContext, InputHandler, InputMappingRegistry, KeyCode};
use tower_defense::level_gen::{seed_from_millis, seed_from_reading};
use tower_defense::obstacles::{
    generate_procedural_map, generate_procedural_map_with_density, generate_procedural_map_with_random_sides,
    generate_random_strategic_path, validate_path_length_requirement,
};
use tower_defense::pathfinding::find_path;
use tower_defense::score::Score;
use tower_defense::security::{DebugAuthorization, DebugFeature, DebugFeatureFlags, SecurityContext};
use tower_defense::waves::WaveManager;
use tower_defense::grid::CellType;

#[test]
fn console_output_counts_as_a_debug_feature() {
    let mut f = DebugFeatureFlags::default();
    assert!(!f.has_any_debug_features_enabled());
    f.console_output_enabled = true;
    assert!(f.has_any_debug_features_enabled());
    assert!(f.validate_security_compliance(true).is_err());
    assert!(f.validate_security_compliance(false).is_ok());
}

#[test]
fn access_given_the_session_reading() {
    let mut ctx = SecurityContext::default();
    let mut flags = DebugFeatureFlags::default();
    flags.enable_development_features();
    flags.enable_admin_features();
    assert!(!DebugAuthorization::validate_access_given(&ctx, &flags, DebugFeature::CheatMenu, false));
    ctx.development_build = true;
    ctx.debug_mode_authorized = true;
    assert!(DebugAuthorization::validate_access_given(&ctx, &flags, DebugFeature::Visualization, false));
    assert!(!DebugAuthorization::validate_access_given(&ctx, &flags, DebugFeature::Visualization, true));
    assert!(!DebugAuthorization::validate_access_given(&ctx, &flags, DebugFeature::CheatMenu, false));
    ctx.admin_privileges = true;
    assert!(DebugAuthorization::validate_access_given(&ctx, &flags, DebugFeature::CheatMenu, false));
    assert!(DebugAuthorization::validate_access_given(&ctx, &flags, DebugFeature::ConsoleOutput, false));
    flags.console_output_enabled = false;
    assert!(!DebugAuthorization::validate_access_given(&ctx, &flags, DebugFeature::ConsoleOutput, false));
    flags.grid_controls_enabled = false;
    assert!(!DebugAuthorization::validate_access_given(&ctx, &flags, DebugFeature::GridControls, false));
    assert!(!DebugAuthorization::validate_grid_controls_access(&ctx, &flags));
}

#[test]
fn seeds_from_clock_readings() {
    assert_eq!(seed_from_reading(None), seed_from_millis(42));
    assert_eq!(seed_from_reading(None), 46347652635);
    assert_eq!(seed_from_reading(Some(1000)), seed_from_millis(1000));
    assert_eq!(seed_from_reading(Some((1u128 << 64) + 5)), seed_from_millis(5));
    assert_ne!(seed_from_reading(Some(1)), seed_from_reading(Some(2)));
}

#[test]
fn score_after_kills_and_escapes() {
    let mut s = Score::new();
    s.enemy_killed(10);
    s.enemy_escaped();
    s.enemy_killed(5);
    s.enemy_escaped();
    s.enemy_escaped();
    assert_eq!(s.current, 15);
    assert_eq!(s.enemies_killed, 2);
    assert_eq!(s.enemies_escaped, 3);
    assert_eq!(s.total_enemies(), 5);
}

#[test]
fn wave_completes_after_its_enemies() {
    let mut w = WaveManager::new();
    w.start_wave(3);
    for k in 0..3 {
        assert!(!w.wave_complete());
        assert!(w.should_spawn_enemy(true));
        w.enemy_spawned();
        assert_eq!(w.enemies_spawned, k + 1);
    }
    assert!(w.wave_complete());
    assert!(!w.should_spawn_enemy(true));
    assert!(!w.should_spawn_enemy(false));
}

#[test]
fn dispatch_steps_in_serving_order() {
    let mut r = InputMappingRegistry::new();
    r.register_handler(InputHandler::new("low", "", 10, InputContext::Game, vec![KeyCode::F5])).unwrap();
    r.register_handler(InputHandler::new("high", "", 90, InputContext::Game, vec![KeyCode::F5, KeyCode::F6])).unwrap();
    r.register_handler(InputHandler::new("mid", "", 50, InputContext::Game, vec![KeyCode::F5])).unwrap();
    let mut order = Vec::new();
    let mut from = 0;
    while let Some((j, h)) = r.process_input_step(KeyCode::F5, from, false) {
        order.push(h.get_id().to_string());
        from = j + 1;
    }
    assert_eq!(order, vec!["high", "mid", "low"]);
    assert!(r.process_input_step(KeyCode::F5, 0, true).is_none());
    assert!(r.process_input_step(KeyCode::F7, 0, false).is_none());
    let (j, h) = r.process_input_step(KeyCode::F6, 0, false).unwrap();
    assert_eq!((j, h.get_id()), (0, "high"));
}

fn fixed_obstacles_present(g: &PathGrid) -> bool {
    [(8, 3), (12, 14), (16, 6), (20, 12), (24, 8)]
        .iter()
        .all(|&(x, y)| g.get_cell(GridPos::new(x, y)) == Some(CellType::Blocked))
}

#[test]
fn generated_maps_settle() {
    for seed in [1u64, 7, 12345, 99999] {
        for g in [generate_procedural_map(seed, 40), generate_procedural_map_with_random_sides(seed, 40)] {
            let settled = match find_path(&g, g.entry_point, g.exit_point) {
                Some(p) => validate_path_length_requirement(&p, &g),
                None => false,
            };
            assert!(settled || fixed_obstacles_present(&g));
        }
    }
    let empty = generate_procedural_map(5, 0);
    assert!(fixed_obstacles_present(&empty));
    let d = generate_procedural_map_with_density(5, 0);
    for y in 0..d.height {
        for x in 0..d.width {
            assert_eq!(d.get_cell(GridPos::new(x, y)), Some(CellType::Empty));
        }
    }
}

#[test]
fn waypoint_route_joins_shortest_legs() {
    let g = PathGrid::new_unified();
    let waypoints = vec![g.entry_point, GridPos::new(15, 0), GridPos::new(15, 17), g.exit_point];
    let r = generate_random_strategic_path(&g, &waypoints);
    assert_eq!(r.len(), 25 + 17 + 24);
    assert_eq!(r[0], g.entry_point);
    assert_eq!(r[24], GridPos::new(15, 0));
    assert_eq!(r[41], GridPos::new(15, 17));
    assert_eq!(*r.last().unwrap(), g.exit_point);
    for w in r.windows(2) {
        assert_eq!(w[0].manhattan_distance(&w[1]), 1);
    }
    assert!(validate_path_length_requirement(&r, &g));
}

#[test]
fn strategic_route_keeps_the_length_rule_through_corners() {
    let g = PathGrid::new_unified();
    let waypoints = vec![g.entry_point, g.exit_point];
    let r = generate_random_strategic_path(&g, &waypoints);
    assert!(validate_path_length_requirement(&r, &g));
    assert_eq!(r[0], g.entry_point);
    assert_eq!(*r.last().unwrap(), g.exit_point);
    assert_eq!(r.len(), 1 + 40 + 48 + 40);
    assert!(r.contains(&GridPos::new(31, 17)));
    assert!(r.contains(&GridPos::new(0, 0)));
    let first_corner = r.iter().position(|p| *p == GridPos::new(31, 17)).unwrap();
    let second_corner = r.iter().position(|p| *p == GridPos::new(0, 0)).unwrap();
    assert!(first_corner < second_corner);
}

#[test]
fn session_limit_is_one_hour() {
    let ctx = SecurityContext::default();
    assert_eq!(ctx.max_debug_session_nanos, 3_600_000_000_000);
    assert!(!ctx.session_expired_after(3_600_000_000_000));
    assert!(ctx.session_expired_after(3_600_000_000_001));
    assert!(!ctx.session_expired_after(0));
    assert!(!ctx.is_session_expired());
}

#[test]
fn tower_panel_texts() {
    let basic = TowerStats::new(TowerType::Basic);
    let rich = Economy::new(1000, 100, 100, 100);
    let poor = Economy::new(0, 0, 0, 0);
    assert_eq!(upgrade_button_label(&basic, &rich), UpgradeButtonLabel::Upgrade);
    assert_eq!(upgrade_button_label(&basic, &poor), UpgradeButtonLabel::CantAfford);
    let mut top = TowerStats::new(TowerType::Laser);
    top.upgrade_level = 5;
    assert_eq!(upgrade_button_label(&top, &poor), UpgradeButtonLabel::MaxLevel);
    assert_eq!(UpgradeButtonLabel::Upgrade.text(), "UPGRADE");
    assert_eq!(UpgradeButtonLabel::CantAfford.text(), "CAN'T AFFORD");
    assert_eq!(UpgradeButtonLabel::MaxLevel.text(), "MAX LEVEL");
    assert_eq!(tower_button_cost_text(&TowerType::Basic.get_cost()), "$40");
    assert_eq!(tower_button_cost_text(&TowerType::Tesla.get_cost()), "$200+");
    let laser = TowerStats::new(TowerType::Laser);
    assert_eq!(upgrade_cost_text(&laser), "Upgrade Cost:\nMoney: $60\nResearch: 5\nMaterials: 0\nEnergy: 12");
    assert_eq!(upgrade_cost_text(&top), "");
    assert_eq!(
        popup_cost_text(&ResourceCost::new(80, 5, 0, 15), true),
        "Money: $80\nResearch: 5\nEnergy: 15\n\n[AFFORDABLE]"
    );
    assert_eq!(popup_cost_text(&ResourceCost::new(0, 0, 0, 0), false), "\n\n[INSUFFICIENT RESOURCES]");
}
