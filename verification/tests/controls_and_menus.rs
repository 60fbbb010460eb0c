use tower_defense::cheats::{
    apply_cheat_button, debug_reset_game, maintain_god_mode, spawn_rate_preset_tenths, toggle_cheat_menu,
    CheatButtonType, Despawns, CHEAT_RESOURCE_MAX,
};
use tower_defense::economy::{Economy, ResourceCost, TowerStats, TowerType};
use tower_defense::menus::{
    can_start_wave, debug_wave_selection, game_time_paused, pause_key_transition, pause_menu_outcome,
    pause_menu_visible, start_wave_button_text, tower_click_selection, tower_placement_step, upgrade_step,
    PauseMenuAction, PauseMenuOutcome, PlacementOutcome,
};
use tower_defense::security::{
    restore_admin_given, toggle_admin_given, DebugAuthorization, DebugFeatureFlags, SecurityAuditResult,
    SecurityContext,
};
use tower_defense::text::decimal_string;
use tower_defense::ui_state::{
    apply_debug_visualization_toggle, apply_toggle, toggle_is_active, ToggleType, CheatMenuState, DebugToggle, DebugVisualizationState, GridVisualizationMode,
    ResolutionOption, TowerSelectionState, TowerStatPopupState, TowerUIMode, UnifiedGridSystem,
};
use tower_defense::waves::{AppState, GameState, WaveManager, WaveStatus};

fn world() -> (Economy, CheatMenuState, WaveManager, WaveStatus, GameState) {
    (
        Economy::new(10, 20, 30, 40),
        CheatMenuState { visible: true, god_mode: false },
        WaveManager { current_wave: 2, enemies_in_wave: 7, enemies_spawned: 3, spawn_rate_tenths: 12 },
        WaveStatus { enemies_remaining: 4, enemies_killed: 2, enemies_escaped: 1, wave_complete: false },
        GameState::Playing,
    )
}

#[test]
fn currency_cheats_add_or_set() {
    let (mut e, mut c, mut w, mut s, mut g) = world();
    let d = apply_cheat_button(CheatButtonType::AddMoney1K, &mut e, &mut c, &mut w, &mut s, &mut g);
    assert_eq!(e, Economy::new(1010, 20, 30, 40));
    assert_eq!(d, Despawns { enemies: false, projectiles: false, towers: false });
    apply_cheat_button(CheatButtonType::SetEnergyMax, &mut e, &mut c, &mut w, &mut s, &mut g);
    assert_eq!(e.energy, CHEAT_RESOURCE_MAX);
    apply_cheat_button(CheatButtonType::AddResearch100, &mut e, &mut c, &mut w, &mut s, &mut g);
    assert_eq!(e.research_points, 120);
    apply_cheat_button(CheatButtonType::ResetAllResources, &mut e, &mut c, &mut w, &mut s, &mut g);
    assert_eq!(e, Economy::default());
}

#[test]
fn next_wave_and_instant_win_clear_enemies() {
    let (mut e, mut c, mut w, mut s, mut g) = world();
    let d = apply_cheat_button(CheatButtonType::NextWave, &mut e, &mut c, &mut w, &mut s, &mut g);
    assert_eq!(w.current_wave, 3);
    assert!(s.wave_complete);
    assert_eq!(s.enemies_remaining, 0);
    assert_eq!(d, Despawns { enemies: true, projectiles: false, towers: false });
    apply_cheat_button(CheatButtonType::InstantWin, &mut e, &mut c, &mut w, &mut s, &mut g);
    assert_eq!(g, GameState::Victory);
}

#[test]
fn reset_game_cheat_restarts_everything() {
    let (mut e, mut c, mut w, mut s, mut g) = world();
    c.god_mode = true;
    g = GameState::GameOver;
    let d = apply_cheat_button(CheatButtonType::ResetGame, &mut e, &mut c, &mut w, &mut s, &mut g);
    assert_eq!(d, Despawns { enemies: true, projectiles: true, towers: true });
    assert_eq!(e, Economy::default());
    assert_eq!((w.current_wave, w.enemies_in_wave, w.enemies_spawned, w.spawn_rate_tenths), (0, 0, 0, 12));
    assert_eq!(s, WaveStatus::default());
    assert_eq!(g, GameState::Playing);
    assert!(!c.god_mode);
    assert!(c.visible);
}

#[test]
fn god_mode_toggles_and_holds_resources() {
    let (mut e, mut c, mut w, mut s, mut g) = world();
    apply_cheat_button(CheatButtonType::ToggleGodMode, &mut e, &mut c, &mut w, &mut s, &mut g);
    assert!(c.god_mode);
    maintain_god_mode(&c, &mut e);
    assert_eq!(e, Economy::new(u32::MAX, u32::MAX, u32::MAX, u32::MAX));
    apply_cheat_button(CheatButtonType::ToggleGodMode, &mut e, &mut c, &mut w, &mut s, &mut g);
    let before = Economy::new(1, 2, 3, 4);
    let mut e2 = before;
    maintain_god_mode(&c, &mut e2);
    assert_eq!(e2, before);
    toggle_cheat_menu(&mut c);
    assert!(!c.visible);
}

#[test]
fn debug_reset_keeps_materials_and_energy() {
    let (mut e, _c, mut w, mut s, mut g) = world();
    let d = debug_reset_game(&mut w, &mut e, &mut s, &mut g);
    assert_eq!(e, Economy::new(100, 0, 30, 40));
    assert_eq!(w.current_wave, 0);
    assert_eq!(s, WaveStatus::default());
    assert_eq!(g, GameState::Playing);
    assert!(d.enemies && d.projectiles && d.towers);
}

#[test]
fn spawn_rate_presets() {
    let presets: Vec<Option<u32>> = (0..=6).map(spawn_rate_preset_tenths).collect();
    assert_eq!(presets, vec![None, Some(5), Some(10), Some(20), Some(30), Some(50), None]);
}

#[test]
fn pause_key_and_menu() {
    assert_eq!(pause_key_transition(AppState::Playing), AppState::Paused);
    assert_eq!(pause_key_transition(AppState::Paused), AppState::Playing);
    assert_eq!(pause_key_transition(AppState::Settings), AppState::Paused);
    assert_eq!(pause_menu_outcome(PauseMenuAction::Settings), PauseMenuOutcome::Goto(AppState::Settings));
    assert_eq!(pause_menu_outcome(PauseMenuAction::Exit), PauseMenuOutcome::Exit);
    assert!(pause_menu_visible(AppState::Paused));
    assert!(!pause_menu_visible(AppState::Settings));
    assert!(game_time_paused(AppState::Settings));
    assert!(!game_time_paused(AppState::Playing));
}

#[test]
fn debug_wave_keys_need_overlay_and_ctrl() {
    assert_eq!(debug_wave_selection(true, true, 7), Some(7));
    assert_eq!(debug_wave_selection(true, false, 7), None);
    assert_eq!(debug_wave_selection(false, true, 7), None);
    assert_eq!(debug_wave_selection(true, true, 0), None);
}

#[test]
fn placing_a_tower_pays_for_it() {
    let mut sel = TowerSelectionState::default();
    sel.set_placement_mode(Some(TowerType::Basic));
    let mut e = Economy::new(45, 0, 0, 0);
    assert_eq!(tower_placement_step(&sel, false, true, true, &mut e), PlacementOutcome::Placed(TowerType::Basic));
    assert_eq!(e.money, 5);
    assert_eq!(tower_placement_step(&sel, false, true, true, &mut e), PlacementOutcome::CannotAfford);
    assert_eq!(tower_placement_step(&sel, false, true, false, &mut e), PlacementOutcome::InvalidPosition);
    assert_eq!(tower_placement_step(&sel, true, true, true, &mut e), PlacementOutcome::NoAttempt);
    assert_eq!(e.money, 5);
}

#[test]
fn upgrade_button_checks_cost_and_level() {
    let mut e = Economy::new(20, 0, 0, 0);
    let mut t = TowerStats::new(TowerType::Basic);
    assert!(upgrade_step(&mut e, &mut t));
    assert_eq!((e.money, t.upgrade_level), (0, 2));
    assert!(!upgrade_step(&mut e, &mut t));
    let mut rich = Economy::new(10000, 0, 0, 0);
    let mut top = TowerStats { tower_type: TowerType::Basic, upgrade_level: 5 };
    assert!(!upgrade_step(&mut rich, &mut top));
    assert_eq!(rich.money, 10000);
}

#[test]
fn start_wave_button() {
    let mut w = WaveManager::new();
    assert!(can_start_wave(&w));
    assert_eq!(start_wave_button_text(&w), "START FIRST WAVE");
    w.start_wave(5);
    assert!(!can_start_wave(&w));
    assert_eq!(start_wave_button_text(&w), "WAVE 1 IN PROGRESS");
    w.enemies_spawned = 5;
    assert_eq!(start_wave_button_text(&w), "START WAVE 2");
}

#[test]
fn clicking_towers_selects_and_clears() {
    let mut sel = TowerSelectionState::default();
    assert!(tower_click_selection(&mut sel, false, true, Some(9)));
    assert_eq!(sel.mode, TowerUIMode::Upgrade);
    assert_eq!(sel.selected_tower_entity, Some(9));
    assert!(tower_click_selection(&mut sel, false, true, None));
    assert_eq!(sel.mode, TowerUIMode::Placement);
    assert!(!tower_click_selection(&mut sel, true, false, None));
    sel.set_placement_mode(Some(TowerType::Laser));
    assert!(tower_click_selection(&mut sel, true, false, None));
    assert_eq!(sel.selected_placement_type, None);
}

#[test]
fn grid_modes_cycle_and_debug_overlay() {
    let mut grid = UnifiedGridSystem::default();
    grid.cycle_mode();
    assert_eq!(grid.mode, GridVisualizationMode::Debug);
    grid.cycle_mode();
    grid.cycle_mode();
    assert_eq!(grid.mode, GridVisualizationMode::Normal);
    assert_eq!(grid.total_squares(), 576);
    let mut dbg = DebugVisualizationState::new();
    grid.show_path = false;
    apply_debug_visualization_toggle(&mut dbg, &mut grid);
    assert!(dbg.enabled);
    assert_eq!(grid.mode, GridVisualizationMode::Debug);
    assert!(grid.show_path);
    apply_debug_visualization_toggle(&mut dbg, &mut grid);
    assert_eq!(grid.mode, GridVisualizationMode::Normal);
    grid.toggle_grid_borders();
    assert!(grid.hide_grid_borders);
}

#[test]
fn popups_toggles_and_resolutions() {
    let mut p = TowerStatPopupState::default();
    p.show_for_tower(TowerType::Tesla);
    assert!(p.is_showing());
    p.hide_popup();
    assert!(!p.is_showing());
    let mut t = DebugToggle::new();
    t.toggle();
    assert!(t.is_enabled());
    assert!(DebugToggle::from_settings(Some(true)).is_enabled());
    assert!(!DebugToggle::from_settings(None).is_enabled());
    assert_eq!(ResolutionOption::Res1366x768.to_string(), "1366x768");
    assert_eq!(ResolutionOption::Res1280x720.dimensions(), (1280, 720));
    assert_eq!(ResolutionOption::all().len(), 5);
}

fn dev_context() -> SecurityContext {
    let mut ctx = SecurityContext::default();
    ctx.development_build = true;
    ctx
}

#[test]
fn admin_key_grants_and_withdraws() {
    let mut ctx = dev_context();
    let mut flags = DebugFeatureFlags::default();
    assert_eq!(toggle_admin_given(&mut ctx, &mut flags, false), Some(true));
    assert!(ctx.debug_mode_authorized && ctx.admin_privileges && flags.cheat_menu_enabled);
    assert_eq!(toggle_admin_given(&mut ctx, &mut flags, false), Some(false));
    assert!(ctx.debug_mode_authorized && !ctx.admin_privileges && !flags.cheat_menu_enabled);
    let mut release = SecurityContext::default();
    assert_eq!(toggle_admin_given(&mut release, &mut flags, false), None);
    assert!(!release.admin_privileges);
}

#[test]
fn admin_restored_from_settings() {
    let mut ctx = dev_context();
    let mut flags = DebugFeatureFlags::default();
    assert!(!restore_admin_given(&mut ctx, &mut flags, Some(false), false, false));
    assert!(restore_admin_given(&mut ctx, &mut flags, Some(true), false, false));
    assert!(ctx.admin_privileges);
    assert!(!restore_admin_given(&mut ctx, &mut flags, Some(true), true, false));
}

#[test]
fn permissions_need_authorization() {
    let mut ctx = dev_context();
    let mut flags = DebugFeatureFlags::default();
    flags.enable_development_features();
    assert!(!DebugAuthorization::validate_debug_ui_access(&ctx, &flags));
    ctx.authorize_debug_access();
    assert!(DebugAuthorization::validate_debug_ui_access(&ctx, &flags));
    assert!(!DebugAuthorization::validate_cheat_menu_access(&ctx, &flags));
    ctx.authorize_admin_privileges();
    flags.enable_admin_features();
    assert!(DebugAuthorization::validate_cheat_menu_access(&ctx, &flags));
    ctx.revoke_debug_access();
    assert!(!ctx.has_cheat_permission());
}

#[test]
fn security_texts_and_audit() {
    let ctx = dev_context();
    assert_eq!(
        ctx.security_status_given(false),
        "SecurityContext: dev=true, debug_auth=false, admin=false, session_valid=true"
    );
    let mut flags = DebugFeatureFlags::default();
    assert_eq!(
        flags.get_feature_summary(),
        "DebugFeatures: vis=false, ui=false, cheat=false, console=false, wave=false, spawn=false, grid=false"
    );
    assert!(flags.validate_security_compliance(true).is_ok());
    flags.cheat_menu_enabled = true;
    assert_eq!(
        flags.validate_security_compliance(true).unwrap_err(),
        "Debug features enabled in release build - security violation"
    );
    let audit = DebugAuthorization::audit_given(&ctx, &flags, true, false, false);
    assert_eq!(audit.violations, vec!["Debug features enabled in release build".to_string()]);
    assert_eq!(audit.warnings, vec!["Cheat menu enabled without admin privileges".to_string()]);
    assert!(!audit.is_secure());
    assert_eq!(audit.get_summary(), "Security audit FAILED: 1 violations, 1 warnings");
    let clean = SecurityAuditResult::default();
    assert_eq!(clean.get_summary(), "Security audit PASSED: 0 warnings, features=false, session_valid=false");
    flags.disable_all_debug_features();
    assert!(!flags.has_any_debug_features_enabled());
}

#[test]
fn decimal_text() {
    assert_eq!(decimal_string(0), "0");
    assert_eq!(decimal_string(1234567), "1234567");
}

#[test]
fn cheat_cost_check_uses_resource_costs() {
    let e = Economy::new(40, 0, 0, 0);
    assert!(e.can_afford(&ResourceCost::money(40)));
}

#[test]
fn debug_panel_switches() {
    let mut g = UnifiedGridSystem::default();
    apply_toggle(&mut g, ToggleType::Path);
    assert!(!g.show_path);
    assert!(!toggle_is_active(&g, ToggleType::Path));
    apply_toggle(&mut g, ToggleType::Zones);
    assert!(!g.show_zones);
    apply_toggle(&mut g, ToggleType::Grid);
    assert!(!g.show_grid);
    let before = g;
    apply_toggle(&mut g, ToggleType::Performance);
    assert_eq!(g, before);
    assert!(toggle_is_active(&g, ToggleType::Performance));
    apply_toggle(&mut g, ToggleType::Path);
    assert!(g.show_path);
    assert!(toggle_is_active(&g, ToggleType::Path));
}
