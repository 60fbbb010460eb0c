use tower_defense::combat::{award_kill, projectile_speed};
use tower_defense::economy::{Economy, ResourceCost, ResourceReward, TowerStats, TowerType, ENERGY_CAP};
use tower_defense::score::Score;
use tower_defense::waves::{
    advance_game_state, calculate_enemies_for_wave, Enemy, GameState, WaveManager, WaveStatus,
};

#[test]
fn economy_starts_with_default_stock() {
    let e = Economy::default();
    assert_eq!(e, Economy::new(50, 0, 5, 30));
}

#[test]
fn spending_and_earning() {
    let mut e = Economy::new(100, 10, 5, 40);
    let cost = ResourceCost::new(80, 5, 3, 15);
    assert!(e.can_afford(&cost));
    e.spend(&cost);
    assert_eq!(e, Economy::new(20, 5, 2, 25));
    assert!(!e.can_afford(&cost));
    e.spend(&cost);
    assert_eq!(e, Economy::new(20, 5, 2, 25));
    e.earn(&ResourceReward::new(1, 2, 3, 4));
    assert_eq!(e, Economy::new(21, 7, 5, 29));
}

#[test]
fn earn_then_spend_restores_stock() {
    let start = Economy::new(7, 8, 9, 10);
    let mut e = start;
    e.earn(&ResourceReward::new(3, 4, 5, 6));
    e.spend(&ResourceCost::new(3, 4, 5, 6));
    assert_eq!(e, start);
}

#[test]
fn passive_income_caps_energy() {
    let mut e = Economy::new(0, 0, 0, 95);
    e.apply_passive_income(2, 1, 10);
    assert_eq!(e, Economy::new(2, 1, 0, ENERGY_CAP));
    let mut high = Economy::new(0, 0, 0, 150);
    high.apply_passive_income(0, 0, 0);
    assert_eq!(high.energy, 100);
}

#[test]
fn single_resource_costs() {
    assert_eq!(ResourceCost::money(5), ResourceCost::new(5, 0, 0, 0));
    assert_eq!(ResourceCost::research(5), ResourceCost::new(0, 5, 0, 0));
    assert_eq!(ResourceCost::materials(5), ResourceCost::new(0, 0, 5, 0));
    assert_eq!(ResourceCost::energy(5), ResourceCost::new(0, 0, 0, 5));
    assert_eq!(ResourceReward::money(9), ResourceReward::new(9, 0, 0, 0));
}

#[test]
fn tower_costs_names_and_rewards() {
    assert_eq!(TowerType::Basic.get_cost(), ResourceCost::money(40));
    assert_eq!(TowerType::Tesla.get_cost(), ResourceCost::new(200, 20, 5, 40));
    assert_eq!(TowerType::Laser.get_name(), "Laser Tower");
    assert_eq!(TowerType::Missile.get_description(), "Area damage, expensive materials");
    assert_eq!(TowerType::Basic.kill_money(), 5);
    assert_eq!(TowerType::Tesla.kill_money(), 15);
}

#[test]
fn upgrades_cost_more_and_stop_at_level_five() {
    let mut t = TowerStats::new(TowerType::Advanced);
    assert_eq!(t.upgrade_level, 1);
    assert_eq!(t.get_upgrade_cost(), ResourceCost::new(40, 1, 0, 7));
    t.upgrade();
    assert_eq!(t.get_upgrade_cost(), ResourceCost::new(80, 3, 1, 15));
    for _ in 0..10 {
        t.upgrade();
    }
    assert_eq!(t.upgrade_level, 5);
    assert!(!t.can_upgrade());
}

#[test]
fn enemies_per_wave_follow_documented_progression() {
    let counts: Vec<u32> = (1..=5).map(calculate_enemies_for_wave).collect();
    assert_eq!(counts, vec![5, 7, 10, 14, 19]);
    assert_eq!(calculate_enemies_for_wave(0), 5);
}

#[test]
fn enemy_stats_scale_with_wave() {
    let e = Enemy::for_wave(3);
    assert_eq!(e.speed, 65);
    assert_eq!(e.reward, 14);
    assert_eq!(Enemy::health_for_wave(1), 75);
    assert_eq!(Enemy::health_for_wave(0), 75);
    assert_eq!(Enemy::default(), Enemy { speed: 50, path_index: 0, reward: 10 });
}

#[test]
fn wave_manager_spawns_and_starts_waves() {
    let mut w = WaveManager::new();
    assert!(w.start_next_wave_if_ready());
    assert_eq!(w.current_wave, 1);
    assert_eq!(w.enemies_in_wave, 5);
    assert_eq!(w.spawn_rate_tenths, 10);
    assert!(!w.start_next_wave_if_ready());
    assert!(w.should_spawn_enemy(true));
    assert!(!w.should_spawn_enemy(false));
    for _ in 0..5 {
        w.enemy_spawned();
    }
    assert!(w.wave_complete());
    assert!(!w.should_spawn_enemy(true));
    assert!(w.start_next_wave_if_ready());
    assert_eq!(w.current_wave, 2);
    assert_eq!(w.enemies_in_wave, 7);
    assert_eq!(w.spawn_rate_tenths, 12);
    let mut late = WaveManager::new();
    late.current_wave = 20;
    late.start_wave(3);
    assert_eq!(late.spawn_rate_tenths, 30);
}

#[test]
fn kills_complete_a_wave() {
    let mut s = WaveStatus::default();
    s.initialize_wave(2);
    s.record_kill();
    assert!(!s.wave_complete);
    s.record_kill();
    assert!(s.wave_complete);
    assert_eq!(s.enemies_killed, 2);
    assert_eq!(s.enemies_remaining, 0);
}

#[test]
fn game_is_won_after_third_completed_wave() {
    let mut g = GameState::Playing;
    let mut s = WaveStatus { enemies_remaining: 0, enemies_killed: 3, enemies_escaped: 0, wave_complete: true };
    let mut w = WaveManager { current_wave: 3, enemies_in_wave: 3, enemies_spawned: 3, spawn_rate_tenths: 14 };
    advance_game_state(&mut g, &mut s, &mut w, 0);
    assert_eq!(g, GameState::Victory);
}

#[test]
fn game_is_lost_after_ten_escapes() {
    let mut g = GameState::Playing;
    let mut s = WaveStatus { enemies_remaining: 5, enemies_killed: 0, enemies_escaped: 8, wave_complete: false };
    let mut w = WaveManager::new();
    advance_game_state(&mut g, &mut s, &mut w, 2);
    assert_eq!(g, GameState::GameOver);
    assert_eq!(s.enemies_escaped, 10);
    assert_eq!(s.enemies_remaining, 3);
}

#[test]
fn completed_early_wave_moves_on() {
    let mut g = GameState::Playing;
    let mut s = WaveStatus { enemies_remaining: 0, enemies_killed: 4, enemies_escaped: 1, wave_complete: true };
    let mut w = WaveManager { current_wave: 1, enemies_in_wave: 5, enemies_spawned: 5, spawn_rate_tenths: 10 };
    advance_game_state(&mut g, &mut s, &mut w, 0);
    assert_eq!(g, GameState::Playing);
    assert_eq!(w.current_wave, 2);
    assert_eq!(s, WaveStatus { enemies_remaining: 5, enemies_killed: 0, enemies_escaped: 0, wave_complete: false });
}

#[test]
fn score_counts_kills_and_escapes() {
    let mut s = Score::new();
    s.enemy_killed(10);
    s.enemy_killed(5);
    s.enemy_escaped();
    assert_eq!(s.current, 15);
    assert_eq!(s.total_enemies(), 3);
    assert_eq!(Score::default(), Score::new());
}

#[test]
fn kill_rewards_follow_tower_kind() {
    let kinds = [
        (TowerType::Basic, 5),
        (TowerType::Advanced, 8),
        (TowerType::Laser, 10),
        (TowerType::Missile, 12),
        (TowerType::Tesla, 15),
    ];
    for (kind, money) in kinds {
        let mut e = Economy::new(100, 3, 5, 30);
        let mut w = WaveStatus::default();
        w.initialize_wave(2);
        award_kill(&mut e, &mut w, kind);
        assert_eq!(e, Economy::new(100 + money, 4, 5, 30));
        assert_eq!(w.enemies_killed, 1);
        assert_eq!(w.enemies_remaining, 1);
        assert!(!w.wave_complete);
    }
}

#[test]
fn last_kill_completes_the_wave() {
    let mut e = Economy::default();
    let mut w = WaveStatus::default();
    w.initialize_wave(1);
    award_kill(&mut e, &mut w, TowerType::Laser);
    assert_eq!(w.enemies_remaining, 0);
    assert!(w.wave_complete);
    assert_eq!(e.money, 60);
    assert_eq!(e.research_points, 1);
}

#[test]
fn projectile_speeds_by_kind() {
    assert_eq!(projectile_speed(TowerType::Basic), 300);
    assert_eq!(projectile_speed(TowerType::Advanced), 400);
    assert_eq!(projectile_speed(TowerType::Laser), 800);
    assert_eq!(projectile_speed(TowerType::Missile), 200);
    assert_eq!(projectile_speed(TowerType::Tesla), 600);
}

#[test]
fn enemy_stats_grow_with_waves() {
    for wave in 1..10u32 {
        let now = Enemy::for_wave(wave);
        let later = Enemy::for_wave(wave + 1);
        assert!(now.speed < later.speed);
        assert!(now.reward < later.reward);
        assert!(Enemy::health_for_wave(wave) < Enemy::health_for_wave(wave + 1));
    }
    assert_eq!(Enemy::for_wave(10).speed, 100);
    assert_eq!(Enemy::for_wave(10).reward, 28);
    assert_eq!(Enemy::health_for_wave(10), 300);
}
