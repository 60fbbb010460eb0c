use vstd::prelude::*;
use crate::economy::Economy;
use crate::ui_state::CheatMenuState;
use crate::waves::{GameState, WaveManager, WaveStatus};

verus! {

/// The three groups of the cheat menu.
#[derive(Debug, Clone, Copy, PartialEq, Eq, Structural)]
pub enum CheatSectionType {
    Currency,
    Stats,
    GameState,
}

/// The buttons of the cheat menu.
#[derive(Debug, Clone, Copy, PartialEq, Eq, Structural)]
pub enum CheatButtonType {
    AddMoney100,
    AddMoney1K,
    AddMoney10K,
    SetMoneyMax,
    AddResearch10,
    AddResearch100,
    SetResearchMax,
    AddMaterials10,
    AddMaterials100,
    SetMaterialsMax,
    AddEnergy10,
    AddEnergy100,
    SetEnergyMax,
    ResetAllResources,
    NextWave,
    InstantWin,
    ResetGame,
    ToggleGodMode,
}

/// The multiplier sliders of the cheat menu.
#[derive(Debug, Clone, Copy, PartialEq, Eq, Structural)]
pub enum CheatSliderType {
    TowerDamage,
    TowerRange,
    TowerFireRate,
    EnemyHealth,
    EnemySpeed,
}

/// The buttons of the debug panel's action row.
#[derive(Debug, Clone, Copy, PartialEq, Eq, Structural)]
pub enum ActionType {
    ResetGame,
    RandomizeMap,
    SaveState,
    LoadState,
}

/// Which kinds of game entity are to be removed from the world.
#[derive(Debug, Clone, Copy, PartialEq, Eq, Structural)]
pub struct Despawns {
    pub enemies: bool,
    pub projectiles: bool,
    pub towers: bool,
}

/// The value that the "max" buttons set a resource to.
pub const CHEAT_RESOURCE_MAX: u32 = 999999;

/// Money after a debug reset.
pub const DEBUG_RESET_MONEY: u32 = 100;

/// The stock that a cheat leaves behind.
pub open spec fn cheat_economy(b: CheatButtonType, e: Economy) -> Economy {
    match b {
        CheatButtonType::AddMoney100 => Economy { money: (e.money + 100) as u32, ..e },
        CheatButtonType::AddMoney1K => Economy { money: (e.money + 1000) as u32, ..e },
        CheatButtonType::AddMoney10K => Economy { money: (e.money + 10000) as u32, ..e },
        CheatButtonType::SetMoneyMax => Economy { money: CHEAT_RESOURCE_MAX, ..e },
        CheatButtonType::AddResearch10 => Economy { research_points: (e.research_points + 10) as u32, ..e },
        CheatButtonType::AddResearch100 => Economy { research_points: (e.research_points + 100) as u32, ..e },
        CheatButtonType::SetResearchMax => Economy { research_points: CHEAT_RESOURCE_MAX, ..e },
        CheatButtonType::AddMaterials10 => Economy { materials: (e.materials + 10) as u32, ..e },
        CheatButtonType::AddMaterials100 => Economy { materials: (e.materials + 100) as u32, ..e },
        CheatButtonType::SetMaterialsMax => Economy { materials: CHEAT_RESOURCE_MAX, ..e },
        CheatButtonType::AddEnergy10 => Economy { energy: (e.energy + 10) as u32, ..e },
        CheatButtonType::AddEnergy100 => Economy { energy: (e.energy + 100) as u32, ..e },
        CheatButtonType::SetEnergyMax => Economy { energy: CHEAT_RESOURCE_MAX, ..e },
        CheatButtonType::ResetAllResources | CheatButtonType::ResetGame => Economy {
            money: 50,
            research_points: 0,
            materials: 5,
            energy: 30,
        },
        _ => e,
    }
}

/// The cheat overflows no counter that it adds to.
pub open spec fn cheat_applicable(b: CheatButtonType, e: Economy, w: WaveManager) -> bool {
    match b {
        CheatButtonType::AddMoney100 => e.money + 100 <= u32::MAX,
        CheatButtonType::AddMoney1K => e.money + 1000 <= u32::MAX,
        CheatButtonType::AddMoney10K => e.money + 10000 <= u32::MAX,
        CheatButtonType::AddResearch10 => e.research_points + 10 <= u32::MAX,
        CheatButtonType::AddResearch100 => e.research_points + 100 <= u32::MAX,
        CheatButtonType::AddMaterials10 => e.materials + 10 <= u32::MAX,
        CheatButtonType::AddMaterials100 => e.materials + 100 <= u32::MAX,
        CheatButtonType::AddEnergy10 => e.energy + 10 <= u32::MAX,
        CheatButtonType::AddEnergy100 => e.energy + 100 <= u32::MAX,
        CheatButtonType::NextWave => w.current_wave < u32::MAX,
        _ => true,
    }
}

/// The wave manager that a cheat leaves behind.
pub open spec fn cheat_wave_manager(b: CheatButtonType, w: WaveManager) -> WaveManager {
    match b {
        CheatButtonType::NextWave => WaveManager { current_wave: (w.current_wave + 1) as u32, ..w },
        CheatButtonType::ResetGame => WaveManager { current_wave: 0, enemies_in_wave: 0, enemies_spawned: 0, ..w },
        _ => w,
    }
}

/// The wave progress that a cheat leaves behind.
pub open spec fn cheat_wave_status(b: CheatButtonType, s: WaveStatus) -> WaveStatus {
    match b {
        CheatButtonType::NextWave => WaveStatus { enemies_remaining: 0, wave_complete: true, ..s },
        CheatButtonType::ResetGame => WaveStatus {
            enemies_remaining: 0,
            enemies_killed: 0,
            enemies_escaped: 0,
            wave_complete: false,
        },
        _ => s,
    }
}

/// The game state that a cheat leaves behind.
pub open spec fn cheat_game_state(b: CheatButtonType, g: GameState) -> GameState {
    match b {
        CheatButtonType::InstantWin => GameState::Victory,
        CheatButtonType::ResetGame => GameState::Playing,
        _ => g,
    }
}

/// God mode after a cheat.
pub open spec fn cheat_god_mode(b: CheatButtonType, god_mode: bool) -> bool {
    match b {
        CheatButtonType::ToggleGodMode => !god_mode,
        CheatButtonType::ResetGame => false,
        _ => god_mode,
    }
}

/// The entities that a cheat clears away.
pub open spec fn cheat_despawns(b: CheatButtonType) -> Despawns {
    match b {
        CheatButtonType::NextWave | CheatButtonType::InstantWin => Despawns {
            enemies: true,
            projectiles: false,
            towers: false,
        },
        CheatButtonType::ResetGame => Despawns { enemies: true, projectiles: true, towers: true },
        _ => Despawns { enemies: false, projectiles: false, towers: false },
    }
}

/// Applies a pressed cheat button to the game's resources and reports which
/// entities are to be despawned.
pub fn apply_cheat_button(
    button: CheatButtonType,
    economy: &mut Economy,
    cheat_state: &mut CheatMenuState,
    wave_manager: &mut WaveManager,
    wave_status: &mut WaveStatus,
    game_state: &mut GameState,
) -> (d: Despawns)
    requires
        cheat_applicable(button, *old(economy), *old(wave_manager)),
    ensures
        *final(economy) == cheat_economy(button, *old(economy)),
        *final(wave_manager) == cheat_wave_manager(button, *old(wave_manager)),
        *final(wave_status) == cheat_wave_status(button, *old(wave_status)),
        *final(game_state) == cheat_game_state(button, *old(game_state)),
        final(cheat_state).god_mode == cheat_god_mode(button, old(cheat_state).god_mode),
        final(cheat_state).visible == old(cheat_state).visible,
        d == cheat_despawns(button),
{
    let none = Despawns { enemies: false, projectiles: false, towers: false };
    match button {
        CheatButtonType::AddMoney100 => {
            economy.money += 100;
            none
        },
        CheatButtonType::AddMoney1K => {
            economy.money += 1000;
            none
        },
        CheatButtonType::AddMoney10K => {
            economy.money += 10000;
            none
        },
        CheatButtonType::SetMoneyMax => {
            economy.money = CHEAT_RESOURCE_MAX;
            none
        },
        CheatButtonType::AddResearch10 => {
            economy.research_points += 10;
            none
        },
        CheatButtonType::AddResearch100 => {
            economy.research_points += 100;
            none
        },
        CheatButtonType::SetResearchMax => {
            economy.research_points = CHEAT_RESOURCE_MAX;
            none
        },
        CheatButtonType::AddMaterials10 => {
            economy.materials += 10;
            none
        },
        CheatButtonType::AddMaterials100 => {
            economy.materials += 100;
            none
        },
        CheatButtonType::SetMaterialsMax => {
            economy.materials = CHEAT_RESOURCE_MAX;
            none
        },
        CheatButtonType::AddEnergy10 => {
            economy.energy += 10;
            none
        },
        CheatButtonType::AddEnergy100 => {
            economy.energy += 100;
            none
        },
        CheatButtonType::SetEnergyMax => {
            economy.energy = CHEAT_RESOURCE_MAX;
            none
        },
        CheatButtonType::ResetAllResources => {
            *economy = Economy::default();
            none
        },
        CheatButtonType::NextWave => {
            wave_status.enemies_remaining = 0;
            wave_status.wave_complete = true;
            wave_manager.current_wave += 1;
            Despawns { enemies: true, projectiles: false, towers: false }
        },
        CheatButtonType::InstantWin => {
            *game_state = GameState::Victory;
            Despawns { enemies: true, projectiles: false, towers: false }
        },
        CheatButtonType::ResetGame => {
            *economy = Economy::default();
            wave_manager.current_wave = 0;
            wave_manager.enemies_in_wave = 0;
            wave_manager.enemies_spawned = 0;
            *wave_status = WaveStatus::default();
            *game_state = GameState::Playing;
            cheat_state.god_mode = false;
            Despawns { enemies: true, projectiles: true, towers: true }
        },
        CheatButtonType::ToggleGodMode => {
            cheat_state.god_mode = !cheat_state.god_mode;
            none
        },
    }
}

/// The stock that god mode holds: every resource at its largest value.
pub open spec fn god_mode_economy() -> Economy {
    Economy { money: u32::MAX, research_points: u32::MAX, materials: u32::MAX, energy: u32::MAX }
}

/// While god mode is on, every resource is held at its largest value;
/// otherwise the stock is left alone.
pub fn maintain_god_mode(cheat_state: &CheatMenuState, economy: &mut Economy)
    ensures
        *final(economy) == (if cheat_state.god_mode { god_mode_economy() } else { *old(economy) }),
{
    if cheat_state.god_mode {
        economy.money = u32::MAX;
        economy.research_points = u32::MAX;
        economy.materials = u32::MAX;
        economy.energy = u32::MAX;
    }
}

/// Toggles the cheat menu's visibility (its hotkey).
pub fn toggle_cheat_menu(cheat_state: &mut CheatMenuState)
    ensures
        *final(cheat_state) == (CheatMenuState { visible: !old(cheat_state).visible, ..*old(cheat_state) }),
{
    cheat_state.visible = !cheat_state.visible;
}

/// The debug panel's reset: the wave counters and progress start over, money
/// goes to `DEBUG_RESET_MONEY` and research to zero (materials and energy
/// stay), play resumes, and every enemy, projectile and tower is removed.
pub fn debug_reset_game(
    wave_manager: &mut WaveManager,
    economy: &mut Economy,
    wave_status: &mut WaveStatus,
    game_state: &mut GameState,
) -> (d: Despawns)
    ensures
        *final(wave_manager) == (WaveManager {
            current_wave: 0,
            enemies_in_wave: 0,
            enemies_spawned: 0,
            ..*old(wave_manager)
        }),
        *final(economy) == (Economy { money: DEBUG_RESET_MONEY, research_points: 0, ..*old(economy) }),
        *final(wave_status) == (WaveStatus {
            enemies_remaining: 0,
            enemies_killed: 0,
            enemies_escaped: 0,
            wave_complete: false,
        }),
        *final(game_state) == GameState::Playing,
        d == (Despawns { enemies: true, projectiles: true, towers: true }),
{
    wave_manager.current_wave = 0;
    wave_manager.enemies_in_wave = 0;
    wave_manager.enemies_spawned = 0;
    economy.money = DEBUG_RESET_MONEY;
    economy.research_points = 0;
    wave_status.enemies_remaining = 0;
    wave_status.enemies_killed = 0;
    wave_status.enemies_escaped = 0;
    wave_status.wave_complete = false;
    *game_state = GameState::Playing;
    Despawns { enemies: true, projectiles: true, towers: true }
}

/// Spawn rate, in tenths of an enemy per second, that the number keys one to
/// five select; other keys select none.
pub fn spawn_rate_preset_tenths(digit: u8) -> (r: Option<u32>)
    ensures
        r == (match digit {
            1u8 => Option::Some(5u32),
            2u8 => Option::Some(10u32),
            3u8 => Option::Some(20u32),
            4u8 => Option::Some(30u32),
            5u8 => Option::Some(50u32),
            _ => Option::<u32>::None,
        }),
{
    match digit {
        1 => Option::Some(5),
        2 => Option::Some(10),
        3 => Option::Some(20),
        4 => Option::Some(30),
        5 => Option::Some(50),
        _ => Option::None,
    }
}

} // verus!
