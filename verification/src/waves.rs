use vstd::prelude::*;

verus! {

/// Outcome of the running game.
#[derive(Debug, Clone, Copy, PartialEq, Eq, Structural)]
pub enum GameState {
    Playing,
    GameOver,
    Victory,
}

impl Default for GameState {
    fn default() -> (r: Self)
        ensures
            r == GameState::Playing,
    {
        GameState::Playing
    }
}

/// Which screen the application shows.
#[derive(Debug, Clone, Copy, PartialEq, Eq, Structural)]
pub enum AppState {
    Playing,
    Paused,
    Settings,
}

impl Default for AppState {
    fn default() -> (r: Self)
        ensures
            r == AppState::Playing,
    {
        AppState::Playing
    }
}

/// The wave number counted from 1: wave 0 is treated as wave 1.
pub open spec fn effective_wave(wave: u32) -> int {
    if wave < 1 { 1 } else { wave as int }
}

/// Enemies in wave `wave`: 5 in the first wave, and each later wave `w` brings
/// `w` more than the one before (5, 7, 10, 14, 19, ...).
pub open spec fn enemies_for_wave(wave: u32) -> int {
    let w = effective_wave(wave);
    4 + w * (w + 1) / 2
}

/// Enemy speed in world units per second: 50 plus 5 per wave.
pub open spec fn speed_for_wave(wave: u32) -> int {
    50 + 5 * effective_wave(wave)
}

/// Enemy health: 50 plus 25 per wave.
pub open spec fn health_for_wave_spec(wave: u32) -> int {
    50 + 25 * effective_wave(wave)
}

/// Money for killing an enemy: 8 plus 2 per wave.
pub open spec fn reward_for_wave(wave: u32) -> int {
    8 + 2 * effective_wave(wave)
}

/// Enemies spawned per second, in tenths: 1.0 in wave 1, 0.2 more per wave, at most 3.0.
pub open spec fn spawn_rate_tenths_for_wave(wave: u32) -> int {
    let w = effective_wave(wave);
    if 10 + 2 * (w - 1) < 30 { 10 + 2 * (w - 1) } else { 30 }
}

/// Enemies in wave `wave_number` (see `enemies_for_wave`).
pub fn calculate_enemies_for_wave(wave_number: u32) -> (r: u32)
    requires
        enemies_for_wave(wave_number) <= u32::MAX,
    ensures
        r == enemies_for_wave(wave_number),
{
    let wave: u64 = if wave_number < 1 { 1 } else { wave_number as u64 };
    proof {
        assert(wave * (wave + 1) <= 0x1_0000_0000u64 * 0x1_0000_0001u64) by (nonlinear_arith)
            requires 1 <= wave <= 0xFFFF_FFFFu64;
    }
    let total = 4 + wave * (wave + 1) / 2;
    total as u32
}

/// Each wave brings more enemies than the one before.
pub proof fn law_waves_grow(a: u32, b: u32)
    requires
        1 <= a < b,
    ensures
        enemies_for_wave(a) < enemies_for_wave(b),
{
    let (x, y) = (a as int, b as int);
    assert(x * (x + 1) + 2 * (x + 1) <= y * (y + 1)) by (nonlinear_arith) requires 1 <= x < y;
    assert(x * (x + 1) / 2 < y * (y + 1) / 2) by (nonlinear_arith)
        requires x * (x + 1) + 2 * (x + 1) <= y * (y + 1), x >= 1;
}

/// Enemies of a later wave are faster, tougher and worth more.
pub proof fn law_enemy_stats_grow(a: u32, b: u32)
    requires
        1 <= a < b,
    ensures
        speed_for_wave(a) < speed_for_wave(b),
        health_for_wave_spec(a) < health_for_wave_spec(b),
        reward_for_wave(a) < reward_for_wave(b),
{
}

/// An enemy's movement speed, progress along the path and kill reward.
#[derive(Debug, Clone, Copy, PartialEq, Eq, Structural)]
pub struct Enemy {
    pub speed: u64,
    pub path_index: usize,
    pub reward: u32,
}

impl Default for Enemy {
    fn default() -> (r: Self)
        ensures
            r == (Enemy { speed: 50, path_index: 0, reward: 10 }),
    {
        Enemy { speed: 50, path_index: 0, reward: 10 }
    }
}

impl Enemy {
    /// An enemy of wave `wave_number` (wave 0 counts as wave 1): faster and
    /// more rewarding in later waves.
    pub fn for_wave(wave_number: u32) -> (r: Self)
        requires
            reward_for_wave(wave_number) <= u32::MAX,
        ensures
            r.speed == speed_for_wave(wave_number),
            r.path_index == 0,
            r.reward == reward_for_wave(wave_number),
    {
        let wave = if wave_number < 1 { 1 } else { wave_number };
        Enemy { speed: 50 + wave as u64 * 5, path_index: 0, reward: 8 + wave * 2 }
    }

    /// The health of an enemy of wave `wave_number`: 75 in wave 1, then 25 more per wave.
    pub fn health_for_wave(wave_number: u32) -> (r: u64)
        ensures
            r == health_for_wave_spec(wave_number),
    {
        let wave = if wave_number < 1 { 1 } else { wave_number };
        50 + wave as u64 * 25
    }
}

/// The wave manager after one more enemy is spawned.
pub open spec fn spawn_step(w: WaveManager) -> WaveManager {
    WaveManager { enemies_spawned: (w.enemies_spawned + 1) as u32, ..w }
}

/// The wave manager after `k` more enemies are spawned.
pub open spec fn after_spawns(w: WaveManager, k: nat) -> WaveManager
    decreases k,
{
    if k == 0 { w } else { spawn_step(after_spawns(w, (k - 1) as nat)) }
}

/// After a wave of `n` enemies starts and `k` of them are spawned, the wave
/// is complete exactly when `k >= n`, and from then on no further enemy is
/// due whatever the spawn timer says.
pub proof fn law_wave_completes_after_its_enemies(w: WaveManager, k: nat)
    requires
        w.enemies_spawned == 0,
        k <= u32::MAX,
    ensures
        after_spawns(w, k).enemies_spawned == k,
        after_spawns(w, k).enemies_in_wave == w.enemies_in_wave,
        after_spawns(w, k).current_wave == w.current_wave,
        (after_spawns(w, k).enemies_spawned >= after_spawns(w, k).enemies_in_wave) == (k >= w.enemies_in_wave),
        k >= w.enemies_in_wave ==> !(after_spawns(w, k).enemies_spawned < after_spawns(w, k).enemies_in_wave),
    decreases k,
{
    if k > 0 {
        law_wave_completes_after_its_enemies(w, (k - 1) as nat);
    }
}

/// The wave in progress and how far its spawning has got.
#[derive(Debug, Clone, Copy, PartialEq, Eq, Structural)]
pub struct WaveManager {
    pub current_wave: u32,
    pub enemies_in_wave: u32,
    pub enemies_spawned: u32,
    /// Enemies per second in tenths; the spawn interval is ten divided by it, in seconds.
    pub spawn_rate_tenths: u32,
}

impl WaveManager {
    /// No wave yet, spawning at one enemy per second.
    pub fn new() -> (r: Self)
        ensures
            r == (WaveManager { current_wave: 0, enemies_in_wave: 0, enemies_spawned: 0, spawn_rate_tenths: 10 }),
    {
        WaveManager { current_wave: 0, enemies_in_wave: 0, enemies_spawned: 0, spawn_rate_tenths: 10 }
    }

    /// Starts the next wave with `enemy_count` enemies and speeds spawning up for it.
    pub fn start_wave(&mut self, enemy_count: u32)
        requires
            old(self).current_wave < u32::MAX,
        ensures
            final(self).current_wave == old(self).current_wave + 1,
            final(self).enemies_in_wave == enemy_count,
            final(self).enemies_spawned == 0,
            final(self).spawn_rate_tenths == spawn_rate_tenths_for_wave(final(self).current_wave),
    {
        self.current_wave += 1;
        self.enemies_in_wave = enemy_count;
        self.enemies_spawned = 0;
        self.spawn_rate_tenths = self.calculate_spawn_rate_for_wave();
    }

    /// The spawn rate for the current wave (see `spawn_rate_tenths_for_wave`).
    fn calculate_spawn_rate_for_wave(&self) -> (r: u32)
        ensures
            r == spawn_rate_tenths_for_wave(self.current_wave),
    {
        let wave = if self.current_wave < 1 { 1 } else { self.current_wave };
        if wave >= 11 {
            30
        } else {
            10 + 2 * (wave - 1)
        }
    }

    /// Every enemy of the wave has been spawned.
    pub fn wave_complete(&self) -> (r: bool)
        ensures
            r == (self.enemies_spawned >= self.enemies_in_wave),
    {
        self.enemies_spawned >= self.enemies_in_wave
    }

    /// Time to spawn: the wave is not complete and the spawn timer has run out.
    pub fn should_spawn_enemy(&self, timer_finished: bool) -> (r: bool)
        ensures
            r == (self.enemies_spawned < self.enemies_in_wave && timer_finished),
    {
        !self.wave_complete() && timer_finished
    }

    /// Records one spawned enemy (see `spawn_step`).
    pub fn enemy_spawned(&mut self)
        requires
            old(self).enemies_spawned < u32::MAX,
        ensures
            *final(self) == spawn_step(*old(self)),
    {
        self.enemies_spawned += 1;
    }

    /// Starts the next wave, sized by `calculate_enemies_for_wave`, when no wave
    /// has started yet or the current one has spawned all its enemies; reports
    /// whether it did.
    pub fn start_next_wave_if_ready(&mut self) -> (started: bool)
        requires
            old(self).current_wave < u32::MAX,
            enemies_for_wave((old(self).current_wave + 1) as u32) <= u32::MAX,
        ensures
            started == (old(self).current_wave == 0 || old(self).enemies_spawned >= old(self).enemies_in_wave),
            started ==> final(self).current_wave == old(self).current_wave + 1
                && final(self).enemies_in_wave == enemies_for_wave((old(self).current_wave + 1) as u32)
                && final(self).enemies_spawned == 0
                && final(self).spawn_rate_tenths == spawn_rate_tenths_for_wave(final(self).current_wave),
            !started ==> *final(self) == *old(self),
    {
        if self.current_wave == 0 || self.wave_complete() {
            let next_wave = self.current_wave + 1;
            let enemy_count = calculate_enemies_for_wave(next_wave);
            self.start_wave(enemy_count);
            true
        } else {
            false
        }
    }
}

impl Default for WaveManager {
    fn default() -> (r: Self)
        ensures
            r == (WaveManager { current_wave: 0, enemies_in_wave: 0, enemies_spawned: 0, spawn_rate_tenths: 10 }),
    {
        WaveManager::new()
    }
}

/// Spawning never slows down from one wave to the next, and never exceeds
/// three enemies per second.
pub proof fn law_spawn_rate_rises_to_cap(a: u32, b: u32)
    requires
        a <= b,
    ensures
        spawn_rate_tenths_for_wave(a) <= spawn_rate_tenths_for_wave(b),
        10 <= spawn_rate_tenths_for_wave(b) <= 30,
{
}

/// Progress of the wave being fought: enemies left, killed and escaped.
#[derive(Debug, Clone, Copy, PartialEq, Eq, Structural)]
pub struct WaveStatus {
    pub enemies_remaining: u32,
    pub enemies_killed: u32,
    pub enemies_escaped: u32,
    pub wave_complete: bool,
}

impl Default for WaveStatus {
    fn default() -> (r: Self)
        ensures
            r == (WaveStatus { enemies_remaining: 0, enemies_killed: 0, enemies_escaped: 0, wave_complete: false }),
    {
        WaveStatus { enemies_remaining: 0, enemies_killed: 0, enemies_escaped: 0, wave_complete: false }
    }
}

/// The number of waves to survive for victory.
pub const VICTORY_WAVE: u32 = 3;

/// The number of escaped enemies that loses the game.
pub const MAX_ESCAPES: u32 = 10;

impl WaveStatus {
    /// Resets the counters for a wave of `enemy_count` enemies.
    pub fn initialize_wave(&mut self, enemy_count: u32)
        ensures
            *final(self) == (WaveStatus {
                enemies_remaining: enemy_count,
                enemies_killed: 0,
                enemies_escaped: 0,
                wave_complete: false,
            }),
    {
        self.enemies_remaining = enemy_count;
        self.enemies_killed = 0;
        self.enemies_escaped = 0;
        self.wave_complete = false;
    }

    /// Records an enemy killed by a projectile; the wave is complete once none remain.
    pub fn record_kill(&mut self)
        requires
            old(self).enemies_killed < u32::MAX,
        ensures
            final(self).enemies_killed == old(self).enemies_killed + 1,
            final(self).enemies_remaining == (if old(self).enemies_remaining > 0 {
                old(self).enemies_remaining - 1
            } else {
                0
            }),
            final(self).enemies_escaped == old(self).enemies_escaped,
            final(self).wave_complete == (old(self).wave_complete || final(self).enemies_remaining == 0),
    {
        self.enemies_killed += 1;
        self.enemies_remaining = self.enemies_remaining.saturating_sub(1);
        if self.enemies_remaining == 0 {
            self.wave_complete = true;
        }
    }
}

/// One step of the win and loss rules, after `new_escapes` enemies reached the
/// end of the path: the escapes are counted; a complete wave at or after wave
/// `VICTORY_WAVE` wins; `MAX_ESCAPES` escapes lose; otherwise a complete wave
/// moves on to the next one.
pub fn advance_game_state(
    game_state: &mut GameState,
    wave_status: &mut WaveStatus,
    wave_manager: &mut WaveManager,
    new_escapes: u32,
)
    requires
        old(wave_status).enemies_escaped + new_escapes <= u32::MAX,
    ensures
        ({
            let escaped = old(wave_status).enemies_escaped + new_escapes;
            let remaining = if old(wave_status).enemies_remaining >= new_escapes {
                old(wave_status).enemies_remaining - new_escapes
            } else {
                0
            };
            if old(wave_status).wave_complete && old(wave_manager).current_wave >= VICTORY_WAVE {
                &&& *final(game_state) == GameState::Victory
                &&& final(wave_status).enemies_escaped == escaped
                &&& final(wave_status).enemies_remaining == remaining
                &&& *final(wave_manager) == *old(wave_manager)
            } else if escaped >= MAX_ESCAPES {
                &&& *final(game_state) == GameState::GameOver
                &&& final(wave_status).enemies_escaped == escaped
                &&& final(wave_status).enemies_remaining == remaining
                &&& *final(wave_manager) == *old(wave_manager)
            } else if old(wave_status).wave_complete {
                &&& *final(game_state) == *old(game_state)
                &&& final(wave_manager).current_wave == old(wave_manager).current_wave + 1
                &&& final(wave_manager).enemies_in_wave == old(wave_manager).enemies_in_wave
                &&& final(wave_manager).enemies_spawned == old(wave_manager).enemies_spawned
                &&& final(wave_manager).spawn_rate_tenths == old(wave_manager).spawn_rate_tenths
                &&& *final(wave_status) == (WaveStatus {
                    enemies_remaining: old(wave_manager).enemies_in_wave,
                    enemies_killed: 0,
                    enemies_escaped: 0,
                    wave_complete: false,
                })
            } else {
                &&& *final(game_state) == *old(game_state)
                &&& *final(wave_manager) == *old(wave_manager)
                &&& *final(wave_status) == (WaveStatus {
                    enemies_escaped: escaped as u32,
                    enemies_remaining: remaining as u32,
                    ..*old(wave_status)
                })
            }
        }),
{
    wave_status.enemies_escaped += new_escapes;
    wave_status.enemies_remaining = wave_status.enemies_remaining.saturating_sub(new_escapes);
    if wave_status.wave_complete && wave_manager.current_wave >= VICTORY_WAVE {
        *game_state = GameState::Victory;
        return;
    }
    if wave_status.enemies_escaped >= MAX_ESCAPES {
        *game_state = GameState::GameOver;
        return;
    }
    if wave_status.wave_complete && wave_manager.current_wave < VICTORY_WAVE {
        wave_manager.current_wave += 1;
        let count = wave_manager.enemies_in_wave;
        wave_status.initialize_wave(count);
    }
}

} // verus!
