use vstd::prelude::*;

verus! {

/// What it costs to build or upgrade something.
#[derive(Debug, Clone, Copy, PartialEq, Eq, Structural)]
pub struct ResourceCost {
    pub money: u32,
    pub research_points: u32,
    pub materials: u32,
    pub energy: u32,
}

/// What the player gains.
#[derive(Debug, Clone, Copy, PartialEq, Eq, Structural)]
pub struct ResourceReward {
    pub money: u32,
    pub research_points: u32,
    pub materials: u32,
    pub energy: u32,
}

/// The player's stock of the four resources.
#[derive(Debug, Clone, Copy, PartialEq, Eq, Structural)]
pub struct Economy {
    pub money: u32,
    pub research_points: u32,
    pub materials: u32,
    pub energy: u32,
}

/// Energy never rises above this through passive income.
pub const ENERGY_CAP: u32 = 100;

/// The stock covers the cost in every resource.
pub open spec fn affords(e: Economy, c: ResourceCost) -> bool {
    e.money >= c.money && e.research_points >= c.research_points && e.materials >= c.materials
        && e.energy >= c.energy
}

/// The stock after paying `c`, when it is affordable; unchanged otherwise.
pub open spec fn spent(e: Economy, c: ResourceCost) -> Economy {
    if affords(e, c) {
        Economy {
            money: (e.money - c.money) as u32,
            research_points: (e.research_points - c.research_points) as u32,
            materials: (e.materials - c.materials) as u32,
            energy: (e.energy - c.energy) as u32,
        }
    } else {
        e
    }
}

/// Adding `r` overflows none of the four counters.
pub open spec fn can_earn(e: Economy, r: ResourceReward) -> bool {
    e.money + r.money <= u32::MAX && e.research_points + r.research_points <= u32::MAX
        && e.materials + r.materials <= u32::MAX && e.energy + r.energy <= u32::MAX
}

/// The stock after gaining `r`.
pub open spec fn earned(e: Economy, r: ResourceReward) -> Economy {
    Economy {
        money: (e.money + r.money) as u32,
        research_points: (e.research_points + r.research_points) as u32,
        materials: (e.materials + r.materials) as u32,
        energy: (e.energy + r.energy) as u32,
    }
}

/// The cost that takes back exactly the reward `r`.
pub open spec fn cost_of(r: ResourceReward) -> ResourceCost {
    ResourceCost { money: r.money, research_points: r.research_points, materials: r.materials, energy: r.energy }
}

impl Default for Economy {
    /// The starting stock: 50 money, no research, 5 materials, 30 energy.
    fn default() -> (r: Self)
        ensures
            r == (Economy { money: 50, research_points: 0, materials: 5, energy: 30 }),
    {
        Economy { money: 50, research_points: 0, materials: 5, energy: 30 }
    }
}

impl Economy {
    pub fn new(money: u32, research_points: u32, materials: u32, energy: u32) -> (r: Self)
        ensures
            r == (Economy { money, research_points, materials, energy }),
    {
        Economy { money, research_points, materials, energy }
    }

    /// Whether the stock covers `cost` in every resource.
    pub fn can_afford(&self, cost: &ResourceCost) -> (r: bool)
        ensures
            r == affords(*self, *cost),
            r <==> (self.money >= cost.money && self.research_points >= cost.research_points
                && self.materials >= cost.materials && self.energy >= cost.energy),
    {
        self.money >= cost.money && self.research_points >= cost.research_points
            && self.materials >= cost.materials && self.energy >= cost.energy
    }

    /// Pays `cost` when it is affordable; otherwise changes nothing.
    pub fn spend(&mut self, cost: &ResourceCost)
        ensures
            *final(self) == spent(*old(self), *cost),
            affords(*old(self), *cost) ==> final(self).money + cost.money == old(self).money
                && final(self).research_points + cost.research_points == old(self).research_points
                && final(self).materials + cost.materials == old(self).materials
                && final(self).energy + cost.energy == old(self).energy,
            !affords(*old(self), *cost) ==> *final(self) == *old(self),
    {
        if self.can_afford(cost) {
            self.money -= cost.money;
            self.research_points -= cost.research_points;
            self.materials -= cost.materials;
            self.energy -= cost.energy;
        }
    }

    /// Adds `reward` to the stock.
    pub fn earn(&mut self, reward: &ResourceReward)
        requires
            can_earn(*old(self), *reward),
        ensures
            *final(self) == earned(*old(self), *reward),
    {
        self.money += reward.money;
        self.research_points += reward.research_points;
        self.materials += reward.materials;
        self.energy += reward.energy;
    }

    /// Adds one tick of passive income (the whole units of each rate times the
    /// elapsed time); energy is then held at `ENERGY_CAP`, also when it was above it.
    pub fn apply_passive_income(&mut self, money_gain: u32, research_gain: u32, energy_gain: u32)
        requires
            old(self).money + money_gain <= u32::MAX,
            old(self).research_points + research_gain <= u32::MAX,
            old(self).energy + energy_gain <= u32::MAX,
        ensures
            final(self).money == old(self).money + money_gain,
            final(self).research_points == old(self).research_points + research_gain,
            final(self).materials == old(self).materials,
            final(self).energy == (if old(self).energy + energy_gain <= ENERGY_CAP {
                old(self).energy + energy_gain
            } else {
                ENERGY_CAP as int
            }),
    {
        self.money += money_gain;
        self.research_points += research_gain;
        let total = self.energy + energy_gain;
        self.energy = if total < ENERGY_CAP { total } else { ENERGY_CAP };
    }
}

/// Gaining a reward and then paying the same amounts as a cost gives back the
/// stock one started with.
pub proof fn law_earn_then_spend_restores(e: Economy, r: ResourceReward)
    requires
        can_earn(e, r),
    ensures
        affords(earned(e, r), cost_of(r)),
        spent(earned(e, r), cost_of(r)) == e,
{
}

/// A stock affords a cost exactly when each of the four resources covers
/// its part of the cost; paying an affordable cost lowers each resource by
/// exactly its part, and earning the same amounts back restores the stock.
/// A cost that is not affordable leaves the stock as it was.
pub proof fn law_paying_takes_each_resource_exactly(e: Economy, c: ResourceCost)
    ensures
        affords(e, c) <==> (e.money >= c.money && e.research_points >= c.research_points && e.materials
            >= c.materials && e.energy >= c.energy),
        affords(e, c) ==> spent(e, c).money + c.money == e.money && spent(e, c).research_points
            + c.research_points == e.research_points && spent(e, c).materials + c.materials == e.materials
            && spent(e, c).energy + c.energy == e.energy,
        affords(e, c) ==> earned(
            spent(e, c),
            ResourceReward { money: c.money, research_points: c.research_points, materials: c.materials, energy: c.energy },
        ) == e,
        !affords(e, c) ==> spent(e, c) == e,
{
}

/// A stock that affords a cost still affords it after gaining anything.
pub proof fn law_earning_keeps_affordability(e: Economy, r: ResourceReward, c: ResourceCost)
    requires
        can_earn(e, r),
        affords(e, c),
    ensures
        affords(earned(e, r), c),
{
}

/// Paying never makes any resource grow, and an unaffordable cost changes nothing.
pub proof fn law_spend_never_increases(e: Economy, c: ResourceCost)
    ensures
        spent(e, c).money <= e.money,
        spent(e, c).research_points <= e.research_points,
        spent(e, c).materials <= e.materials,
        spent(e, c).energy <= e.energy,
        !affords(e, c) ==> spent(e, c) == e,
{
}

impl ResourceCost {
    pub fn new(money: u32, research_points: u32, materials: u32, energy: u32) -> (r: Self)
        ensures
            r == (ResourceCost { money, research_points, materials, energy }),
    {
        ResourceCost { money, research_points, materials, energy }
    }

    /// A cost in money alone.
    pub fn money(amount: u32) -> (r: Self)
        ensures
            r == (ResourceCost { money: amount, research_points: 0, materials: 0, energy: 0 }),
    {
        ResourceCost { money: amount, research_points: 0, materials: 0, energy: 0 }
    }

    /// A cost in research points alone.
    pub fn research(amount: u32) -> (r: Self)
        ensures
            r == (ResourceCost { money: 0, research_points: amount, materials: 0, energy: 0 }),
    {
        ResourceCost { money: 0, research_points: amount, materials: 0, energy: 0 }
    }

    /// A cost in materials alone.
    pub fn materials(amount: u32) -> (r: Self)
        ensures
            r == (ResourceCost { money: 0, research_points: 0, materials: amount, energy: 0 }),
    {
        ResourceCost { money: 0, research_points: 0, materials: amount, energy: 0 }
    }

    /// A cost in energy alone.
    pub fn energy(amount: u32) -> (r: Self)
        ensures
            r == (ResourceCost { money: 0, research_points: 0, materials: 0, energy: amount }),
    {
        ResourceCost { money: 0, research_points: 0, materials: 0, energy: amount }
    }
}

impl ResourceReward {
    pub fn new(money: u32, research_points: u32, materials: u32, energy: u32) -> (r: Self)
        ensures
            r == (ResourceReward { money, research_points, materials, energy }),
    {
        ResourceReward { money, research_points, materials, energy }
    }

    /// A reward in money alone.
    pub fn money(amount: u32) -> (r: Self)
        ensures
            r == (ResourceReward { money: amount, research_points: 0, materials: 0, energy: 0 }),
    {
        ResourceReward { money: amount, research_points: 0, materials: 0, energy: 0 }
    }
}

/// The five kinds of tower.
#[derive(Debug, Clone, Copy, PartialEq, Eq, Structural)]
pub enum TowerType {
    Basic,
    Advanced,
    Laser,
    Missile,
    Tesla,
}

/// The building cost of each kind of tower.
pub open spec fn tower_cost(t: TowerType) -> ResourceCost {
    match t {
        TowerType::Basic => ResourceCost { money: 40, research_points: 0, materials: 0, energy: 0 },
        TowerType::Advanced => ResourceCost { money: 80, research_points: 5, materials: 3, energy: 15 },
        TowerType::Laser => ResourceCost { money: 120, research_points: 15, materials: 2, energy: 25 },
        TowerType::Missile => ResourceCost { money: 160, research_points: 8, materials: 6, energy: 25 },
        TowerType::Tesla => ResourceCost { money: 200, research_points: 20, materials: 5, energy: 40 },
    }
}

/// The money awarded when a projectile of this kind of tower kills an enemy.
pub open spec fn spec_kill_money(t: TowerType) -> u32 {
    match t {
        TowerType::Basic => 5,
        TowerType::Advanced => 8,
        TowerType::Laser => 10,
        TowerType::Missile => 12,
        TowerType::Tesla => 15,
    }
}

impl TowerType {
    /// The building cost.
    pub fn get_cost(&self) -> (r: ResourceCost)
        ensures
            r == tower_cost(*self),
    {
        match self {
            TowerType::Basic => ResourceCost::money(40),
            TowerType::Advanced => ResourceCost::new(80, 5, 3, 15),
            TowerType::Laser => ResourceCost::new(120, 15, 2, 25),
            TowerType::Missile => ResourceCost::new(160, 8, 6, 25),
            TowerType::Tesla => ResourceCost::new(200, 20, 5, 40),
        }
    }

    /// The display name.
    pub fn get_name(&self) -> (r: &'static str)
        ensures
            r@ == (match *self {
                TowerType::Basic => "Basic Tower"@,
                TowerType::Advanced => "Advanced Tower"@,
                TowerType::Laser => "Laser Tower"@,
                TowerType::Missile => "Missile Tower"@,
                TowerType::Tesla => "Tesla Tower"@,
            }),
    {
        match self {
            TowerType::Basic => "Basic Tower",
            TowerType::Advanced => "Advanced Tower",
            TowerType::Laser => "Laser Tower",
            TowerType::Missile => "Missile Tower",
            TowerType::Tesla => "Tesla Tower",
        }
    }

    /// A one-line description.
    pub fn get_description(&self) -> (r: &'static str)
        ensures
            r@ == (match *self {
                TowerType::Basic => "Low cost, moderate damage"@,
                TowerType::Advanced => "Higher damage, requires materials"@,
                TowerType::Laser => "High accuracy, research required"@,
                TowerType::Missile => "Area damage, expensive materials"@,
                TowerType::Tesla => "Chain lightning, high energy cost"@,
            }),
    {
        match self {
            TowerType::Basic => "Low cost, moderate damage",
            TowerType::Advanced => "Higher damage, requires materials",
            TowerType::Laser => "High accuracy, research required",
            TowerType::Missile => "Area damage, expensive materials",
            TowerType::Tesla => "Chain lightning, high energy cost",
        }
    }

    /// The money awarded when a projectile of this kind of tower kills an enemy.
    pub fn kill_money(&self) -> (r: u32)
        ensures
            r == spec_kill_money(*self),
    {
        match self {
            TowerType::Basic => 5,
            TowerType::Advanced => 8,
            TowerType::Laser => 10,
            TowerType::Missile => 12,
            TowerType::Tesla => 15,
        }
    }
}

/// The highest upgrade level a tower can reach.
pub const MAX_UPGRADE_LEVEL: u32 = 5;

/// The kind and upgrade level of a built tower.
#[derive(Debug, Clone, Copy, PartialEq, Eq, Structural)]
pub struct TowerStats {
    pub tower_type: TowerType,
    pub upgrade_level: u32,
}

/// The price of the next upgrade of a tower of kind `t` at level `level`: half
/// the money, a third of the research, a quarter of the materials and half the
/// energy of the building cost, each times the level, rounded down.
pub open spec fn upgrade_cost(t: TowerType, level: u32) -> ResourceCost {
    let base = tower_cost(t);
    ResourceCost {
        money: (base.money * level / 2) as u32,
        research_points: (base.research_points * level / 3) as u32,
        materials: (base.materials * level / 4) as u32,
        energy: (base.energy * level / 2) as u32,
    }
}

impl TowerStats {
    /// A freshly built tower of kind `tower_type`, at level 1.
    pub fn new(tower_type: TowerType) -> (r: Self)
        ensures
            r.tower_type == tower_type,
            r.upgrade_level == 1,
    {
        TowerStats { tower_type, upgrade_level: 1 }
    }

    /// The price of the next upgrade.
    pub fn get_upgrade_cost(&self) -> (r: ResourceCost)
        requires
            tower_cost(self.tower_type).money * self.upgrade_level <= u32::MAX,
            tower_cost(self.tower_type).research_points * self.upgrade_level <= u32::MAX,
            tower_cost(self.tower_type).materials * self.upgrade_level <= u32::MAX,
            tower_cost(self.tower_type).energy * self.upgrade_level <= u32::MAX,
        ensures
            r == upgrade_cost(self.tower_type, self.upgrade_level),
    {
        let base_cost = self.tower_type.get_cost();
        let multiplier = self.upgrade_level;
        ResourceCost::new(
            base_cost.money * multiplier / 2,
            base_cost.research_points * multiplier / 3,
            base_cost.materials * multiplier / 4,
            base_cost.energy * multiplier / 2,
        )
    }

    /// Whether the tower is below the top level.
    pub fn can_upgrade(&self) -> (r: bool)
        ensures
            r == (self.upgrade_level < MAX_UPGRADE_LEVEL),
    {
        self.upgrade_level < MAX_UPGRADE_LEVEL
    }

    /// Raises the level by one unless the tower is at the top level.
    pub fn upgrade(&mut self)
        ensures
            final(self).tower_type == old(self).tower_type,
            final(self).upgrade_level == (if old(self).upgrade_level < MAX_UPGRADE_LEVEL {
                old(self).upgrade_level + 1
            } else {
                old(self).upgrade_level as int
            }),
    {
        if !self.can_upgrade() {
            return;
        }
        self.upgrade_level += 1;
    }
}

/// An upgrade of a tower at or below the top level never takes it past the top level.
pub proof fn law_upgrade_stays_within_max(level: u32)
    requires
        level <= MAX_UPGRADE_LEVEL,
    ensures
        (if level < MAX_UPGRADE_LEVEL { level + 1 } else { level as int }) <= MAX_UPGRADE_LEVEL,
{
}

/// Upgrades get no cheaper as the level rises.
pub proof fn law_upgrade_cost_monotone(t: TowerType, a: u32, b: u32)
    requires
        a <= b,
        b <= MAX_UPGRADE_LEVEL,
    ensures
        upgrade_cost(t, a).money <= upgrade_cost(t, b).money,
        upgrade_cost(t, a).research_points <= upgrade_cost(t, b).research_points,
        upgrade_cost(t, a).materials <= upgrade_cost(t, b).materials,
        upgrade_cost(t, a).energy <= upgrade_cost(t, b).energy,
{
    let c = tower_cost(t);
    assert(c.money * a <= c.money * b) by (nonlinear_arith) requires a <= b;
    assert(c.research_points * a <= c.research_points * b) by (nonlinear_arith) requires a <= b;
    assert(c.materials * a <= c.materials * b) by (nonlinear_arith) requires a <= b;
    assert(c.energy * a <= c.energy * b) by (nonlinear_arith) requires a <= b;
    assert(c.money * a / 2 <= c.money * b / 2) by (nonlinear_arith) requires c.money * a <= c.money * b;
    assert(c.research_points * a / 3 <= c.research_points * b / 3) by (nonlinear_arith)
        requires c.research_points * a <= c.research_points * b;
    assert(c.materials * a / 4 <= c.materials * b / 4) by (nonlinear_arith) requires c.materials * a <= c.materials * b;
    assert(c.energy * a / 2 <= c.energy * b / 2) by (nonlinear_arith) requires c.energy * a <= c.energy * b;
}

} // verus!
