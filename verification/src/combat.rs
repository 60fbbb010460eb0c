use vstd::prelude::*;
use crate::economy::{Economy, TowerType, spec_kill_money};
use crate::waves::WaveStatus;

verus! {

/// Flight speed of a projectile fired by each kind of tower, in pixels per second.
pub open spec fn spec_projectile_speed(t: TowerType) -> u32 {
    match t {
        TowerType::Basic => 300,
        TowerType::Advanced => 400,
        TowerType::Laser => 800,
        TowerType::Missile => 200,
        TowerType::Tesla => 600,
    }
}

/// Flight speed of a projectile fired by a tower of kind `tower_type`.
pub fn projectile_speed(tower_type: TowerType) -> (r: u32)
    ensures
        r == spec_projectile_speed(tower_type),
{
    match tower_type {
        TowerType::Basic => 300,
        TowerType::Advanced => 400,
        TowerType::Laser => 800,
        TowerType::Missile => 200,
        TowerType::Tesla => 600,
    }
}

/// What a kill is worth: the money of the tower kind that fired, plus one
/// research point.
pub open spec fn rewarded(e: Economy, t: TowerType) -> Economy {
    Economy {
        money: (e.money + spec_kill_money(t)) as u32,
        research_points: (e.research_points + 1) as u32,
        ..e
    }
}

/// Whether the kill reward and the kill count still fit their counters.
pub open spec fn kill_fits(e: Economy, w: WaveStatus, t: TowerType) -> bool {
    &&& e.money + spec_kill_money(t) <= u32::MAX
    &&& e.research_points < u32::MAX
    &&& w.enemies_killed < u32::MAX
}

/// Books an enemy killed by a projectile of a tower of kind `tower_type`:
/// the kill money of that kind and one research point are earned, and the
/// wave records the kill (completing once no enemy remains).
pub fn award_kill(economy: &mut Economy, wave_status: &mut WaveStatus, tower_type: TowerType)
    requires
        kill_fits(*old(economy), *old(wave_status), tower_type),
    ensures
        *final(economy) == rewarded(*old(economy), tower_type),
        final(wave_status).enemies_killed == old(wave_status).enemies_killed + 1,
        final(wave_status).enemies_remaining == (if old(wave_status).enemies_remaining > 0 {
            old(wave_status).enemies_remaining - 1
        } else {
            0
        }),
        final(wave_status).enemies_escaped == old(wave_status).enemies_escaped,
        final(wave_status).wave_complete == (old(wave_status).wave_complete
            || final(wave_status).enemies_remaining == 0),
{
    let reward = tower_type.kill_money();
    economy.money = economy.money + reward;
    economy.research_points = economy.research_points + 1;
    wave_status.record_kill();
}

} // verus!
