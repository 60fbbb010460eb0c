use vstd::prelude::*;
use crate::economy::TowerType;
use crate::grid::{CellType, GridPos, PathGrid};

verus! {

/// How the map grid is drawn.
#[derive(Debug, Clone, Copy, PartialEq, Eq, Structural)]
pub enum GridVisualizationMode {
    /// Faint grid lines as placement guidance.
    Normal,
    /// Obstacles, path and tower zones in colour.
    Debug,
    /// Valid and invalid placement cells highlighted.
    Placement,
}

impl Default for GridVisualizationMode {
    fn default() -> (r: Self)
        ensures
            r == GridVisualizationMode::Normal,
    {
        GridVisualizationMode::Normal
    }
}

/// The mode after `m` in the F3 cycle Normal, Debug, Placement.
pub open spec fn next_mode(m: GridVisualizationMode) -> GridVisualizationMode {
    match m {
        GridVisualizationMode::Normal => GridVisualizationMode::Debug,
        GridVisualizationMode::Debug => GridVisualizationMode::Placement,
        GridVisualizationMode::Placement => GridVisualizationMode::Normal,
    }
}

impl GridVisualizationMode {
    /// The next mode in the F3 cycle.
    pub fn cycled(&self) -> (r: Self)
        ensures
            r == next_mode(*self),
    {
        match self {
            GridVisualizationMode::Normal => GridVisualizationMode::Debug,
            GridVisualizationMode::Debug => GridVisualizationMode::Placement,
            GridVisualizationMode::Placement => GridVisualizationMode::Normal,
        }
    }
}

/// Three presses of F3 bring the grid back to the mode it started in, and no
/// fewer presses do.
pub proof fn law_mode_cycle_has_period_three(m: GridVisualizationMode)
    ensures
        next_mode(next_mode(next_mode(m))) == m,
        next_mode(m) != m,
        next_mode(next_mode(m)) != m,
{
}

/// Settings of the grid display.
#[derive(Debug, Clone, Copy, PartialEq, Eq, Structural)]
pub struct UnifiedGridSystem {
    pub mode: GridVisualizationMode,
    pub grid_width: usize,
    pub grid_height: usize,
    pub show_grid: bool,
    pub show_path: bool,
    pub show_zones: bool,
    pub show_obstacles: bool,
    pub hide_grid_borders: bool,
}

impl Default for UnifiedGridSystem {
    /// The dense 32 by 18 grid, normal mode, everything shown.
    fn default() -> (r: Self)
        ensures
            r == (UnifiedGridSystem {
                mode: GridVisualizationMode::Normal,
                grid_width: 32,
                grid_height: 18,
                show_grid: true,
                show_path: true,
                show_zones: true,
                show_obstacles: true,
                hide_grid_borders: false,
            }),
    {
        UnifiedGridSystem {
            mode: GridVisualizationMode::Normal,
            grid_width: 32,
            grid_height: 18,
            show_grid: true,
            show_path: true,
            show_zones: true,
            show_obstacles: true,
            hide_grid_borders: false,
        }
    }
}

impl UnifiedGridSystem {
    /// Number of cells.
    pub fn total_squares(&self) -> (r: usize)
        requires
            self.grid_width * self.grid_height <= usize::MAX,
        ensures
            r == self.grid_width * self.grid_height,
    {
        self.grid_width * self.grid_height
    }

    /// F3: next display mode.
    pub fn cycle_mode(&mut self)
        ensures
            *final(self) == (UnifiedGridSystem { mode: next_mode(old(self).mode), ..*old(self) }),
    {
        self.mode = self.mode.cycled();
    }

    /// F4 in the grid toggle system: show or hide the grid.
    pub fn toggle_show_grid(&mut self)
        ensures
            *final(self) == (UnifiedGridSystem { show_grid: !old(self).show_grid, ..*old(self) }),
    {
        self.show_grid = !self.show_grid;
    }

    /// F4 handler: show or hide the grid borders.
    pub fn toggle_grid_borders(&mut self)
        ensures
            *final(self) == (UnifiedGridSystem { hide_grid_borders: !old(self).hide_grid_borders, ..*old(self) }),
    {
        self.hide_grid_borders = !self.hide_grid_borders;
    }
}

/// The display switches of the debug panel.
#[derive(Debug, Clone, Copy, PartialEq, Eq, Structural)]
pub enum ToggleType {
    Grid,
    Path,
    Zones,
    Performance,
}

/// A press on a debug panel switch: grid, path and zone display flip; the
/// performance switch changes nothing on the grid.
pub fn apply_toggle(unified_grid: &mut UnifiedGridSystem, toggle_type: ToggleType)
    ensures
        *final(unified_grid) == (match toggle_type {
            ToggleType::Grid => UnifiedGridSystem { show_grid: !old(unified_grid).show_grid, ..*old(unified_grid) },
            ToggleType::Path => UnifiedGridSystem { show_path: !old(unified_grid).show_path, ..*old(unified_grid) },
            ToggleType::Zones => UnifiedGridSystem { show_zones: !old(unified_grid).show_zones, ..*old(unified_grid) },
            ToggleType::Performance => *old(unified_grid),
        }),
{
    match toggle_type {
        ToggleType::Grid => unified_grid.show_grid = !unified_grid.show_grid,
        ToggleType::Path => unified_grid.show_path = !unified_grid.show_path,
        ToggleType::Zones => unified_grid.show_zones = !unified_grid.show_zones,
        ToggleType::Performance => {},
    }
}

/// Whether a panel switch shows as active; the performance switch always does.
pub fn toggle_is_active(unified_grid: &UnifiedGridSystem, toggle_type: ToggleType) -> (r: bool)
    ensures
        r == (match toggle_type {
            ToggleType::Grid => unified_grid.show_grid,
            ToggleType::Path => unified_grid.show_path,
            ToggleType::Zones => unified_grid.show_zones,
            ToggleType::Performance => true,
        }),
{
    match toggle_type {
        ToggleType::Grid => unified_grid.show_grid,
        ToggleType::Path => unified_grid.show_path,
        ToggleType::Zones => unified_grid.show_zones,
        ToggleType::Performance => true,
    }
}

/// Whether a cell can take a tower: it lies on the display grid, and the map
/// has it empty or reserved for towers (cells beyond the map count as free;
/// without a map every grid cell is free).
pub fn is_valid_placement_cell(grid_pos: GridPos, path_grid: Option<&PathGrid>, grid_width: usize, grid_height: usize) -> (r: bool)
    requires
        path_grid matches Some(g) ==> g.wf(),
    ensures
        r == (grid_pos.x < grid_width && grid_pos.y < grid_height && match path_grid {
            Some(g) => !g.in_bounds(grid_pos) || g.cell(grid_pos) == CellType::Empty || g.cell(grid_pos) == CellType::TowerZone,
            None => true,
        }),
{
    if grid_pos.x >= grid_width || grid_pos.y >= grid_height {
        return false;
    }
    match path_grid {
        Some(g) => match g.get_cell(grid_pos) {
            Some(CellType::Empty) => true,
            Some(CellType::TowerZone) => true,
            Some(CellType::Path) => false,
            Some(CellType::Blocked) => false,
            None => true,
        },
        None => true,
    }
}

/// Whether a grid position lies on the display grid.
pub fn is_valid_grid_placement(grid_pos: GridPos, unified_grid: &UnifiedGridSystem) -> (r: bool)
    ensures
        r == (grid_pos.x < unified_grid.grid_width && grid_pos.y < unified_grid.grid_height),
{
    if grid_pos.x >= unified_grid.grid_width || grid_pos.y >= unified_grid.grid_height {
        return false;
    }
    true
}

/// The F1 debug overlay state.
#[derive(Debug, Clone, Copy, PartialEq, Eq, Structural)]
pub struct DebugVisualizationState {
    pub enabled: bool,
    pub current_wave: u32,
    pub show_grid: bool,
    pub show_obstacles: bool,
    pub show_path: bool,
    pub show_tower_zones: bool,
}

impl Default for DebugVisualizationState {
    fn default() -> (r: Self)
        ensures
            r == (DebugVisualizationState {
                enabled: false,
                current_wave: 0,
                show_grid: false,
                show_obstacles: false,
                show_path: false,
                show_tower_zones: false,
            }),
    {
        DebugVisualizationState {
            enabled: false,
            current_wave: 0,
            show_grid: false,
            show_obstacles: false,
            show_path: false,
            show_tower_zones: false,
        }
    }
}

impl DebugVisualizationState {
    /// Overlay off, wave 1, grid and obstacles shown.
    pub fn new() -> (r: Self)
        ensures
            r == (DebugVisualizationState {
                enabled: false,
                current_wave: 1,
                show_grid: true,
                show_obstacles: true,
                show_path: false,
                show_tower_zones: false,
            }),
    {
        DebugVisualizationState {
            enabled: false,
            current_wave: 1,
            show_grid: true,
            show_obstacles: true,
            show_path: false,
            show_tower_zones: false,
        }
    }

    pub fn toggle(&mut self)
        ensures
            *final(self) == (DebugVisualizationState { enabled: !old(self).enabled, ..*old(self) }),
    {
        self.enabled = !self.enabled;
    }
}

/// The F1 key: toggles the overlay; switching it on moves the grid to debug
/// mode (unless it is in placement mode) and shows path, zones and obstacles;
/// switching it off moves a grid in debug mode back to normal.
pub fn apply_debug_visualization_toggle(debug_state: &mut DebugVisualizationState, unified_grid: &mut UnifiedGridSystem)
    ensures
        *final(debug_state) == (DebugVisualizationState { enabled: !old(debug_state).enabled, ..*old(debug_state) }),
        final(debug_state).enabled ==> *final(unified_grid) == (UnifiedGridSystem {
            mode: if old(unified_grid).mode == GridVisualizationMode::Placement {
                GridVisualizationMode::Placement
            } else {
                GridVisualizationMode::Debug
            },
            show_path: true,
            show_zones: true,
            show_obstacles: true,
            ..*old(unified_grid)
        }),
        !final(debug_state).enabled ==> *final(unified_grid) == (UnifiedGridSystem {
            mode: if old(unified_grid).mode == GridVisualizationMode::Debug {
                GridVisualizationMode::Normal
            } else {
                old(unified_grid).mode
            },
            ..*old(unified_grid)
        }),
{
    debug_state.toggle();
    if debug_state.enabled {
        if unified_grid.mode != GridVisualizationMode::Placement {
            unified_grid.mode = GridVisualizationMode::Debug;
        }
        unified_grid.show_path = true;
        unified_grid.show_zones = true;
        unified_grid.show_obstacles = true;
    } else {
        if unified_grid.mode == GridVisualizationMode::Debug {
            unified_grid.mode = GridVisualizationMode::Normal;
        }
    }
}

/// Pressing F1 twice leaves the overlay as it was and, from normal or
/// placement mode, the grid mode too.
pub proof fn law_debug_toggle_twice(s: DebugVisualizationState, m: GridVisualizationMode)
    requires
        !s.enabled,
        m != GridVisualizationMode::Debug,
    ensures
        ({
            let on = if m == GridVisualizationMode::Placement { GridVisualizationMode::Placement } else { GridVisualizationMode::Debug };
            let off = if on == GridVisualizationMode::Debug { GridVisualizationMode::Normal } else { on };
            off == m
        }),
{
}

/// Simple on/off switch for the debug features.
#[derive(Debug, Clone, Copy, PartialEq, Eq, Structural)]
pub struct DebugToggle {
    pub enabled: bool,
}

impl Default for DebugToggle {
    fn default() -> (r: Self)
        ensures
            !r.enabled,
    {
        DebugToggle { enabled: false }
    }
}

impl DebugToggle {
    pub fn new() -> (r: Self)
        ensures
            !r.enabled,
    {
        DebugToggle { enabled: false }
    }

    pub fn enable(&mut self)
        ensures
            final(self).enabled,
    {
        self.enabled = true;
    }

    pub fn disable(&mut self)
        ensures
            !final(self).enabled,
    {
        self.enabled = false;
    }

    pub fn toggle(&mut self)
        ensures
            final(self).enabled == !old(self).enabled,
    {
        self.enabled = !self.enabled;
    }

    pub fn is_enabled(&self) -> (r: bool)
        ensures
            r == self.enabled,
    {
        self.enabled
    }

    /// The switch as saved in the settings; off when no settings are loaded.
    pub fn from_settings(debug_admin_enabled: Option<bool>) -> (r: Self)
        ensures
            r.enabled == (debug_admin_enabled == Option::Some(true)),
    {
        match debug_admin_enabled {
            Option::Some(b) => DebugToggle { enabled: b },
            Option::None => DebugToggle { enabled: false },
        }
    }
}

/// Visibility of the cheat menu and god mode.
#[derive(Debug, Clone, Copy, PartialEq, Eq, Structural)]
pub struct CheatMenuState {
    pub visible: bool,
    pub god_mode: bool,
}

impl Default for CheatMenuState {
    fn default() -> (r: Self)
        ensures
            r == (CheatMenuState { visible: false, god_mode: false }),
    {
        CheatMenuState { visible: false, god_mode: false }
    }
}

/// Whether the tower panel places new towers or upgrades a selected one.
#[derive(Debug, Clone, Copy, PartialEq, Eq, Structural)]
pub enum TowerUIMode {
    Placement,
    Upgrade,
}

/// How a click turns into a tower position.
#[derive(Debug, Clone, Copy, PartialEq, Eq, Structural)]
pub enum PlacementMode {
    NoPlacement,
    GridBased,
    FreeForm,
    Hybrid,
}

/// Kinds of placement area.
#[derive(Debug, Clone, Copy, PartialEq, Eq, Structural)]
pub enum PlacementZoneType {
    GridZone,
    FreeZone,
    RestrictedZone,
}

/// The tower panel's selection; a selected tower is named by its entity id.
#[derive(Debug, Clone, Copy, PartialEq, Eq, Structural)]
pub struct TowerSelectionState {
    pub mode: TowerUIMode,
    pub selected_placement_type: Option<TowerType>,
    pub selected_tower_entity: Option<u64>,
    pub placement_panel_visible: bool,
    pub upgrade_panel_visible: bool,
}

impl Default for TowerSelectionState {
    fn default() -> (r: Self)
        ensures
            r == (TowerSelectionState {
                mode: TowerUIMode::Placement,
                selected_placement_type: Option::None,
                selected_tower_entity: Option::None,
                placement_panel_visible: true,
                upgrade_panel_visible: false,
            }),
    {
        TowerSelectionState {
            mode: TowerUIMode::Placement,
            selected_placement_type: Option::None,
            selected_tower_entity: Option::None,
            placement_panel_visible: true,
            upgrade_panel_visible: false,
        }
    }
}

impl TowerSelectionState {
    /// Placement mode with `tower_type` selected; no tower selected for upgrade.
    pub fn set_placement_mode(&mut self, tower_type: Option<TowerType>)
        ensures
            *final(self) == (TowerSelectionState {
                mode: TowerUIMode::Placement,
                selected_placement_type: tower_type,
                selected_tower_entity: Option::None,
                placement_panel_visible: true,
                upgrade_panel_visible: false,
            }),
    {
        self.mode = TowerUIMode::Placement;
        self.selected_placement_type = tower_type;
        self.selected_tower_entity = Option::None;
        self.placement_panel_visible = true;
        self.upgrade_panel_visible = false;
    }

    /// Upgrade mode for the tower `tower_entity`; both panels shown.
    pub fn set_upgrade_mode(&mut self, tower_entity: u64)
        ensures
            *final(self) == (TowerSelectionState {
                mode: TowerUIMode::Upgrade,
                selected_placement_type: Option::None,
                selected_tower_entity: Option::Some(tower_entity),
                placement_panel_visible: true,
                upgrade_panel_visible: true,
            }),
    {
        self.mode = TowerUIMode::Upgrade;
        self.selected_placement_type = Option::None;
        self.selected_tower_entity = Option::Some(tower_entity);
        self.placement_panel_visible = true;
        self.upgrade_panel_visible = true;
    }

    /// Back to placement mode with nothing selected; the placement panel keeps its visibility.
    pub fn clear_selection(&mut self)
        ensures
            *final(self) == (TowerSelectionState {
                mode: TowerUIMode::Placement,
                selected_placement_type: Option::None,
                selected_tower_entity: Option::None,
                upgrade_panel_visible: false,
                ..*old(self)
            }),
    {
        self.mode = TowerUIMode::Placement;
        self.selected_placement_type = Option::None;
        self.selected_tower_entity = Option::None;
        self.upgrade_panel_visible = false;
    }

    pub fn is_placement_mode(&self) -> (r: bool)
        ensures
            r == (self.mode == TowerUIMode::Placement),
    {
        matches!(self.mode, TowerUIMode::Placement)
    }

    pub fn is_upgrade_mode(&self) -> (r: bool)
        ensures
            r == (self.mode == TowerUIMode::Upgrade),
    {
        matches!(self.mode, TowerUIMode::Upgrade)
    }

    /// The grid mode that tower selection calls for: placement while a tower
    /// type is selected for placement, normal otherwise.
    pub fn desired_grid_mode(&self) -> (r: GridVisualizationMode)
        ensures
            r == (if self.mode == TowerUIMode::Placement && self.selected_placement_type is Some {
                GridVisualizationMode::Placement
            } else {
                GridVisualizationMode::Normal
            }),
    {
        if self.is_placement_mode() && self.selected_placement_type.is_some() {
            GridVisualizationMode::Placement
        } else {
            GridVisualizationMode::Normal
        }
    }
}

/// Which tower's stats the popup shows.
#[derive(Debug, Clone, Copy, PartialEq, Eq, Structural)]
pub struct TowerStatPopupState {
    pub active_tower_type: Option<TowerType>,
    pub visible: bool,
}

impl Default for TowerStatPopupState {
    fn default() -> (r: Self)
        ensures
            r == (TowerStatPopupState { active_tower_type: Option::None, visible: false }),
    {
        TowerStatPopupState { active_tower_type: Option::None, visible: false }
    }
}

impl TowerStatPopupState {
    pub fn show_for_tower(&mut self, tower_type: TowerType)
        ensures
            *final(self) == (TowerStatPopupState { active_tower_type: Option::Some(tower_type), visible: true }),
    {
        self.active_tower_type = Option::Some(tower_type);
        self.visible = true;
    }

    /// Closes the popup and forgets its tower.
    pub fn hide_popup(&mut self)
        ensures
            *final(self) == (TowerStatPopupState { active_tower_type: Option::None, visible: false }),
    {
        self.active_tower_type = Option::None;
        self.visible = false;
    }

    pub fn is_showing(&self) -> (r: bool)
        ensures
            r == (self.visible && self.active_tower_type is Some),
    {
        self.visible && self.active_tower_type.is_some()
    }
}

/// Display resolutions on offer.
#[derive(Debug, Clone, Copy, PartialEq, Eq, Structural)]
pub enum ResolutionOption {
    Res1920x1080,
    Res1600x900,
    Res1366x768,
    Res1280x720,
    Res1024x768,
}

impl ResolutionOption {
    /// Width and height in pixels.
    pub fn dimensions(&self) -> (r: (u32, u32))
        ensures
            r == (match *self {
                ResolutionOption::Res1920x1080 => (1920u32, 1080u32),
                ResolutionOption::Res1600x900 => (1600u32, 900u32),
                ResolutionOption::Res1366x768 => (1366u32, 768u32),
                ResolutionOption::Res1280x720 => (1280u32, 720u32),
                ResolutionOption::Res1024x768 => (1024u32, 768u32),
            }),
    {
        match self {
            ResolutionOption::Res1920x1080 => (1920, 1080),
            ResolutionOption::Res1600x900 => (1600, 900),
            ResolutionOption::Res1366x768 => (1366, 768),
            ResolutionOption::Res1280x720 => (1280, 720),
            ResolutionOption::Res1024x768 => (1024, 768),
        }
    }

    /// "WIDTHxHEIGHT".
    pub fn to_string(&self) -> (r: String)
        ensures
            r@ == (match *self {
                ResolutionOption::Res1920x1080 => "1920x1080"@,
                ResolutionOption::Res1600x900 => "1600x900"@,
                ResolutionOption::Res1366x768 => "1366x768"@,
                ResolutionOption::Res1280x720 => "1280x720"@,
                ResolutionOption::Res1024x768 => "1024x768"@,
            }),
    {
        match self {
            ResolutionOption::Res1920x1080 => String::from_str("1920x1080"),
            ResolutionOption::Res1600x900 => String::from_str("1600x900"),
            ResolutionOption::Res1366x768 => String::from_str("1366x768"),
            ResolutionOption::Res1280x720 => String::from_str("1280x720"),
            ResolutionOption::Res1024x768 => String::from_str("1024x768"),
        }
    }

    /// Every option, largest first.
    pub fn all() -> (r: Vec<Self>)
        ensures
            r@ == seq![
                ResolutionOption::Res1920x1080,
                ResolutionOption::Res1600x900,
                ResolutionOption::Res1366x768,
                ResolutionOption::Res1280x720,
                ResolutionOption::Res1024x768,
            ],
    {
        let mut v: Vec<Self> = Vec::new();
        v.push(ResolutionOption::Res1920x1080);
        v.push(ResolutionOption::Res1600x900);
        v.push(ResolutionOption::Res1366x768);
        v.push(ResolutionOption::Res1280x720);
        v.push(ResolutionOption::Res1024x768);
        v
    }
}

} // verus!
