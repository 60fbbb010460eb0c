use vstd::prelude::*;
use crate::economy::{affords, spent, tower_cost, upgrade_cost, Economy, TowerStats, TowerType, MAX_UPGRADE_LEVEL};
use crate::text::{decimal_string, decimal_text};
use crate::ui_state::{TowerSelectionState, TowerUIMode};
use crate::waves::{AppState, WaveManager};

verus! {

/// The buttons of the pause menu.
#[derive(Debug, Clone, Copy, PartialEq, Eq, Structural)]
pub enum PauseMenuAction {
    Resume,
    Settings,
    Exit,
}

/// The state after the pause key: playing pauses, paused resumes, and the
/// settings screen goes back to the pause menu.
pub open spec fn after_pause_key(s: AppState) -> AppState {
    match s {
        AppState::Playing => AppState::Paused,
        AppState::Paused => AppState::Playing,
        AppState::Settings => AppState::Paused,
    }
}

/// The state after the pause key (Escape).
pub fn pause_key_transition(current: AppState) -> (r: AppState)
    ensures
        r == after_pause_key(current),
{
    match current {
        AppState::Playing => AppState::Paused,
        AppState::Paused => AppState::Playing,
        AppState::Settings => AppState::Paused,
    }
}

/// What pressing a pause menu button leads to.
#[derive(Debug, Clone, Copy, PartialEq, Eq, Structural)]
pub enum PauseMenuOutcome {
    /// Move to this state.
    Goto(AppState),
    /// Leave the game.
    Exit,
}

/// Resume goes back to playing, Settings opens the settings screen, Exit
/// leaves the game.
pub fn pause_menu_outcome(action: PauseMenuAction) -> (r: PauseMenuOutcome)
    ensures
        r == (match action {
            PauseMenuAction::Resume => PauseMenuOutcome::Goto(AppState::Playing),
            PauseMenuAction::Settings => PauseMenuOutcome::Goto(AppState::Settings),
            PauseMenuAction::Exit => PauseMenuOutcome::Exit,
        }),
{
    match action {
        PauseMenuAction::Resume => PauseMenuOutcome::Goto(AppState::Playing),
        PauseMenuAction::Settings => PauseMenuOutcome::Goto(AppState::Settings),
        PauseMenuAction::Exit => PauseMenuOutcome::Exit,
    }
}

/// The pause menu shows only while paused.
pub fn pause_menu_visible(state: AppState) -> (r: bool)
    ensures
        r == (state == AppState::Paused),
{
    matches!(state, AppState::Paused)
}

/// Game time runs only while playing.
pub fn game_time_paused(state: AppState) -> (r: bool)
    ensures
        r == (state != AppState::Playing),
{
    !matches!(state, AppState::Playing)
}

/// Pressing the pause key twice from play, or from the pause menu, comes
/// back to where it started; from settings, the first press reaches the
/// pause menu and the second resumes play. Game time stops exactly when the
/// game is not playing.
pub proof fn law_pause_key_twice(s: AppState)
    ensures
        s != AppState::Settings ==> after_pause_key(after_pause_key(s)) == s,
        s == AppState::Settings ==> after_pause_key(after_pause_key(s)) == AppState::Playing,
        after_pause_key(s) != AppState::Settings,
{
}

/// The wave that Ctrl with a number key selects for the debug overlay: the
/// key's number, one to nine, when the overlay is on and a Ctrl key is held.
pub fn debug_wave_selection(debug_enabled: bool, ctrl_held: bool, digit: u8) -> (r: Option<u32>)
    ensures
        r == (if debug_enabled && ctrl_held && 1 <= digit <= 9 {
            Option::Some(digit as u32)
        } else {
            Option::<u32>::None
        }),
{
    if debug_enabled && ctrl_held && 1 <= digit && digit <= 9 {
        Option::Some(digit as u32)
    } else {
        Option::None
    }
}

/// What a click on the map does with a tower type selected.
#[derive(Debug, Clone, Copy, PartialEq, Eq, Structural)]
pub enum PlacementOutcome {
    /// No placement was attempted.
    NoAttempt,
    /// The spot cannot take a tower.
    InvalidPosition,
    /// The tower costs more than the stock.
    CannotAfford,
    /// The tower was bought and is to be built.
    Placed(TowerType),
}

/// A click on the map in placement mode, with a tower type selected and no
/// menu button under the pointer, places the tower when the spot is valid
/// and the stock covers its cost, paying for it.
pub fn tower_placement_step(
    selection: &TowerSelectionState,
    ui_active: bool,
    left_clicked: bool,
    position_valid: bool,
    economy: &mut Economy,
) -> (r: PlacementOutcome)
    ensures
        ({
            let attempt = selection.mode == TowerUIMode::Placement && !ui_active && left_clicked
                && selection.selected_placement_type is Some;
            let t = selection.selected_placement_type->0;
            if !attempt {
                r == PlacementOutcome::NoAttempt && *final(economy) == *old(economy)
            } else if !position_valid {
                r == PlacementOutcome::InvalidPosition && *final(economy) == *old(economy)
            } else if !affords(*old(economy), tower_cost(t)) {
                r == PlacementOutcome::CannotAfford && *final(economy) == *old(economy)
            } else {
                r == PlacementOutcome::Placed(t) && *final(economy) == spent(*old(economy), tower_cost(t))
            }
        }),
{
    if selection.is_placement_mode() && !ui_active {
        match selection.selected_placement_type {
            Option::Some(tower_type) => {
                if left_clicked {
                    if position_valid {
                        let cost = tower_type.get_cost();
                        if economy.can_afford(&cost) {
                            economy.spend(&cost);
                            return PlacementOutcome::Placed(tower_type);
                        } else {
                            return PlacementOutcome::CannotAfford;
                        }
                    } else {
                        return PlacementOutcome::InvalidPosition;
                    }
                }
            },
            Option::None => {},
        }
    }
    PlacementOutcome::NoAttempt
}

/// The upgrade button: when the stock covers the next upgrade and the tower
/// is below the top level, pays for the upgrade and raises the level;
/// reports whether it did.
pub fn upgrade_step(economy: &mut Economy, stats: &mut TowerStats) -> (r: bool)
    requires
        tower_cost(old(stats).tower_type).money * old(stats).upgrade_level <= u32::MAX,
        tower_cost(old(stats).tower_type).research_points * old(stats).upgrade_level <= u32::MAX,
        tower_cost(old(stats).tower_type).materials * old(stats).upgrade_level <= u32::MAX,
        tower_cost(old(stats).tower_type).energy * old(stats).upgrade_level <= u32::MAX,
    ensures
        r == (affords(*old(economy), upgrade_cost(old(stats).tower_type, old(stats).upgrade_level))
            && old(stats).upgrade_level < MAX_UPGRADE_LEVEL),
        r ==> *final(economy) == spent(*old(economy), upgrade_cost(old(stats).tower_type, old(stats).upgrade_level))
            && *final(stats) == (TowerStats { upgrade_level: (old(stats).upgrade_level + 1) as u32, ..*old(stats) }),
        !r ==> *final(economy) == *old(economy) && *final(stats) == *old(stats),
{
    let upgrade_cost = stats.get_upgrade_cost();
    if economy.can_afford(&upgrade_cost) && stats.can_upgrade() {
        economy.spend(&upgrade_cost);
        stats.upgrade();
        true
    } else {
        false
    }
}

/// A new wave can start before the first wave and once the current wave
/// has spawned all its enemies.
pub fn can_start_wave(wave_manager: &WaveManager) -> (r: bool)
    ensures
        r == (wave_manager.current_wave == 0 || wave_manager.enemies_spawned >= wave_manager.enemies_in_wave),
{
    wave_manager.current_wave == 0 || wave_manager.wave_complete()
}

/// The start-wave button's label.
pub open spec fn start_wave_label(w: WaveManager) -> Seq<char> {
    if w.current_wave == 0 {
        "START FIRST WAVE"@
    } else if w.enemies_spawned >= w.enemies_in_wave {
        "START WAVE "@ + decimal_text((w.current_wave + 1) as nat)
    } else {
        "WAVE "@ + decimal_text(w.current_wave as nat) + " IN PROGRESS"@
    }
}

/// The start-wave button's label: the first wave, the next wave, or the wave in progress.
pub fn start_wave_button_text(wave_manager: &WaveManager) -> (r: String)
    requires
        wave_manager.current_wave < u32::MAX,
    ensures
        r@ == start_wave_label(*wave_manager),
{
    proof {
        reveal_strlit("START FIRST WAVE");
        reveal_strlit("START WAVE ");
        reveal_strlit("WAVE ");
        reveal_strlit(" IN PROGRESS");
    }
    if wave_manager.current_wave == 0 {
        String::from_str("START FIRST WAVE")
    } else if wave_manager.wave_complete() {
        let mut s = String::from_str("START WAVE ");
        let n = decimal_string((wave_manager.current_wave + 1) as usize);
        s.append(n.as_str());
        s
    } else {
        let mut s = String::from_str("WAVE ");
        let n = decimal_string(wave_manager.current_wave as usize);
        s.append(n.as_str());
        s.append(" IN PROGRESS");
        s
    }
}

/// A right click drops any selection; a left click selects the tower under
/// the pointer (`clicked_tower`, the nearest within reach) for upgrading, or,
/// on empty ground, leaves upgrade mode. Reports whether the selection changed.
pub fn tower_click_selection(
    selection: &mut TowerSelectionState,
    right_clicked: bool,
    left_clicked: bool,
    clicked_tower: Option<u64>,
) -> (changed: bool)
    ensures
        right_clicked ==> {
            if old(selection).selected_placement_type is Some || old(selection).selected_tower_entity is Some {
                &&& changed
                &&& final(selection).mode == TowerUIMode::Placement
                &&& final(selection).selected_placement_type is None
                &&& final(selection).selected_tower_entity is None
                &&& !final(selection).upgrade_panel_visible
                &&& final(selection).placement_panel_visible == old(selection).placement_panel_visible
            } else {
                !changed && *final(selection) == *old(selection)
            }
        },
        !right_clicked && left_clicked && clicked_tower is Some ==> changed && *final(selection) == (TowerSelectionState {
            mode: TowerUIMode::Upgrade,
            selected_placement_type: Option::None,
            selected_tower_entity: clicked_tower,
            placement_panel_visible: true,
            upgrade_panel_visible: true,
        }),
        !right_clicked && left_clicked && clicked_tower is None ==> {
            if old(selection).mode == TowerUIMode::Upgrade {
                &&& changed
                &&& *final(selection) == (TowerSelectionState {
                    mode: TowerUIMode::Placement,
                    selected_placement_type: Option::None,
                    selected_tower_entity: Option::None,
                    upgrade_panel_visible: false,
                    ..*old(selection)
                })
            } else {
                !changed && *final(selection) == *old(selection)
            }
        },
        !right_clicked && !left_clicked ==> !changed && *final(selection) == *old(selection),
{
    if right_clicked {
        if selection.selected_placement_type.is_some() || selection.selected_tower_entity.is_some() {
            selection.clear_selection();
            return true;
        }
        return false;
    }
    if left_clicked {
        match clicked_tower {
            Option::Some(tower) => {
                selection.set_upgrade_mode(tower);
                return true;
            },
            Option::None => {
                if selection.is_upgrade_mode() {
                    selection.clear_selection();
                    return true;
                }
            },
        }
    }
    false
}

} // verus!
