use vstd::prelude::*;
use crate::economy::{affords, tower_cost, upgrade_cost, Economy, ResourceCost, TowerStats, MAX_UPGRADE_LEVEL};
use crate::text::{decimal_string, decimal_text};

verus! {

/// What the upgrade button of the tower panel offers.
#[derive(Debug, Clone, Copy, PartialEq, Eq, Structural)]
pub enum UpgradeButtonLabel {
    Upgrade,
    CantAfford,
    MaxLevel,
}

/// The button's offer: the top level reached, or whether the next upgrade
/// is affordable.
pub open spec fn upgrade_label_for(stats: TowerStats, economy: Economy) -> UpgradeButtonLabel {
    if stats.upgrade_level >= MAX_UPGRADE_LEVEL {
        UpgradeButtonLabel::MaxLevel
    } else if affords(economy, upgrade_cost(stats.tower_type, stats.upgrade_level)) {
        UpgradeButtonLabel::Upgrade
    } else {
        UpgradeButtonLabel::CantAfford
    }
}

/// The upgrade price of a tower below the top level fits the counters.
proof fn lemma_upgrade_cost_fits(stats: TowerStats)
    requires
        stats.upgrade_level < MAX_UPGRADE_LEVEL,
    ensures
        tower_cost(stats.tower_type).money * stats.upgrade_level <= u32::MAX,
        tower_cost(stats.tower_type).research_points * stats.upgrade_level <= u32::MAX,
        tower_cost(stats.tower_type).materials * stats.upgrade_level <= u32::MAX,
        tower_cost(stats.tower_type).energy * stats.upgrade_level <= u32::MAX,
{
    let c = tower_cost(stats.tower_type);
    let l = stats.upgrade_level;
    assert(c.money <= 200 && c.research_points <= 20 && c.materials <= 6 && c.energy <= 40);
    assert(c.money * l <= 200 * 5) by (nonlinear_arith)
        requires
            c.money <= 200,
            l < 5,
    ;
    assert(c.research_points * l <= 20 * 5) by (nonlinear_arith)
        requires
            c.research_points <= 20,
            l < 5,
    ;
    assert(c.materials * l <= 6 * 5) by (nonlinear_arith)
        requires
            c.materials <= 6,
            l < 5,
    ;
    assert(c.energy * l <= 40 * 5) by (nonlinear_arith)
        requires
            c.energy <= 40,
            l < 5,
    ;
}

/// What the upgrade button offers for a tower, given the player's stock.
pub fn upgrade_button_label(stats: &TowerStats, economy: &Economy) -> (r: UpgradeButtonLabel)
    ensures
        r == upgrade_label_for(*stats, *economy),
{
    if stats.can_upgrade() {
        proof {
            lemma_upgrade_cost_fits(*stats);
        }
        let cost = stats.get_upgrade_cost();
        if economy.can_afford(&cost) {
            UpgradeButtonLabel::Upgrade
        } else {
            UpgradeButtonLabel::CantAfford
        }
    } else {
        UpgradeButtonLabel::MaxLevel
    }
}

/// The text on the upgrade button.
pub open spec fn upgrade_label_text_spec(label: UpgradeButtonLabel) -> Seq<char> {
    match label {
        UpgradeButtonLabel::Upgrade => "UPGRADE"@,
        UpgradeButtonLabel::CantAfford => "CAN'T AFFORD"@,
        UpgradeButtonLabel::MaxLevel => "MAX LEVEL"@,
    }
}

impl UpgradeButtonLabel {
    /// The text on the button.
    pub fn text(&self) -> (r: &'static str)
        ensures
            r@ == upgrade_label_text_spec(*self),
    {
        match self {
            UpgradeButtonLabel::Upgrade => "UPGRADE",
            UpgradeButtonLabel::CantAfford => "CAN'T AFFORD",
            UpgradeButtonLabel::MaxLevel => "MAX LEVEL",
        }
    }
}

/// The price shown on a tower button: the money, with a `+` when the tower
/// costs other resources too.
pub open spec fn button_cost_text(cost: ResourceCost) -> Seq<char> {
    let more = cost.money > 0 && (cost.research_points > 0 || cost.materials > 0 || cost.energy > 0);
    "$"@ + decimal_text(cost.money as nat) + (if more { "+"@ } else { Seq::empty() })
}

/// The price shown on a tower button (see `button_cost_text`).
pub fn tower_button_cost_text(cost: &ResourceCost) -> (r: String)
    ensures
        r@ == button_cost_text(*cost),
{
    let mut s = String::from_str("$");
    let money = decimal_string(cost.money as usize);
    s.append(money.as_str());
    let more = cost.money > 0 && (cost.research_points > 0 || cost.materials > 0 || cost.energy > 0);
    if more {
        s.append("+");
    }
    proof {
        reveal_strlit("$");
        reveal_strlit("+");
        if !more {
            assert(s@ =~= button_cost_text(*cost));
        }
    }
    s
}

/// The upgrade price lines of the tower panel, empty at the top level.
pub open spec fn upgrade_cost_text_spec(stats: TowerStats) -> Seq<char> {
    if stats.upgrade_level >= MAX_UPGRADE_LEVEL {
        Seq::empty()
    } else {
        let c = upgrade_cost(stats.tower_type, stats.upgrade_level);
        "Upgrade Cost:\nMoney: $"@ + decimal_text(c.money as nat) + "\nResearch: "@ + decimal_text(
            c.research_points as nat,
        ) + "\nMaterials: "@ + decimal_text(c.materials as nat) + "\nEnergy: "@ + decimal_text(c.energy as nat)
    }
}

/// The upgrade price lines of the tower panel (see `upgrade_cost_text_spec`).
pub fn upgrade_cost_text(stats: &TowerStats) -> (r: String)
    ensures
        r@ == upgrade_cost_text_spec(*stats),
{
    if !stats.can_upgrade() {
        return String::new();
    }
    proof {
        lemma_upgrade_cost_fits(*stats);
    }
    let c = stats.get_upgrade_cost();
    let mut s = String::from_str("Upgrade Cost:\nMoney: $");
    s.append(decimal_string(c.money as usize).as_str());
    s.append("\nResearch: ");
    s.append(decimal_string(c.research_points as usize).as_str());
    s.append("\nMaterials: ");
    s.append(decimal_string(c.materials as usize).as_str());
    s.append("\nEnergy: ");
    s.append(decimal_string(c.energy as usize).as_str());
    s
}

/// The affordability note of the tower popup.
pub open spec fn affordability_text_spec(can_afford: bool) -> Seq<char> {
    if can_afford { "[AFFORDABLE]"@ } else { "[INSUFFICIENT RESOURCES]"@ }
}

/// The lines of a price in the tower popup: one per resource that costs
/// anything, in the order money, research, materials, energy.
pub open spec fn cost_lines(cost: ResourceCost) -> Seq<Seq<char>> {
    let m = if cost.money > 0 { seq!["Money: $"@ + decimal_text(cost.money as nat)] } else { seq![] };
    let r = if cost.research_points > 0 {
        seq!["Research: "@ + decimal_text(cost.research_points as nat)]
    } else {
        seq![]
    };
    let t = if cost.materials > 0 { seq!["Materials: "@ + decimal_text(cost.materials as nat)] } else { seq![] };
    let e = if cost.energy > 0 { seq!["Energy: "@ + decimal_text(cost.energy as nat)] } else { seq![] };
    m + r + t + e
}

/// `lines` joined with line breaks.
pub open spec fn joined_lines(lines: Seq<Seq<char>>) -> Seq<char>
    decreases lines.len(),
{
    if lines.len() == 0 {
        Seq::empty()
    } else if lines.len() == 1 {
        lines[0]
    } else {
        joined_lines(lines.drop_last()) + "\n"@ + lines.last()
    }
}

/// The price block of the tower popup: the price lines, a blank line, and
/// the affordability note.
pub open spec fn popup_cost_text_spec(cost: ResourceCost, can_afford: bool) -> Seq<char> {
    joined_lines(cost_lines(cost)) + "\n\n"@ + affordability_text_spec(can_afford)
}

fn append_line(s: &mut String, lines: Ghost<Seq<Seq<char>>>, line: String, first: bool)
    requires
        old(s)@ == joined_lines(lines@),
        first == (lines@.len() == 0),
    ensures
        final(s)@ == joined_lines(lines@.push(line@)),
{
    proof {
        reveal_strlit("\n");
        assert(lines@.push(line@).drop_last() =~= lines@);
    }
    if !first {
        s.append("\n");
    }
    s.append(line.as_str());
    proof {
        if first {
            assert(s@ =~= line@);
        }
    }
}

/// The price block of the tower popup (see `popup_cost_text_spec`).
pub fn popup_cost_text(cost: &ResourceCost, can_afford: bool) -> (r: String)
    ensures
        r@ == popup_cost_text_spec(*cost, can_afford),
{
    proof {
        reveal_strlit("Money: $");
        reveal_strlit("Research: ");
        reveal_strlit("Materials: ");
        reveal_strlit("Energy: ");
    }
    let mut s = String::new();
    let ghost mut lines: Seq<Seq<char>> = Seq::empty();
    let mut any = false;
    assert(s@ == joined_lines(lines));
    if cost.money > 0 {
        let mut line = String::from_str("Money: $");
        line.append(decimal_string(cost.money as usize).as_str());
        append_line(&mut s, Ghost(lines), line, !any);
        any = true;
        proof {
            lines = lines.push("Money: $"@ + decimal_text(cost.money as nat));
        }
    }
    if cost.research_points > 0 {
        let mut line = String::from_str("Research: ");
        line.append(decimal_string(cost.research_points as usize).as_str());
        append_line(&mut s, Ghost(lines), line, !any);
        any = true;
        proof {
            lines = lines.push("Research: "@ + decimal_text(cost.research_points as nat));
        }
    }
    if cost.materials > 0 {
        let mut line = String::from_str("Materials: ");
        line.append(decimal_string(cost.materials as usize).as_str());
        append_line(&mut s, Ghost(lines), line, !any);
        any = true;
        proof {
            lines = lines.push("Materials: "@ + decimal_text(cost.materials as nat));
        }
    }
    if cost.energy > 0 {
        let mut line = String::from_str("Energy: ");
        line.append(decimal_string(cost.energy as usize).as_str());
        append_line(&mut s, Ghost(lines), line, !any);
        any = true;
        proof {
            lines = lines.push("Energy: "@ + decimal_text(cost.energy as nat));
        }
    }
    assert(lines =~= cost_lines(*cost));
    s.append("\n\n");
    if can_afford {
        s.append("[AFFORDABLE]");
    } else {
        s.append("[INSUFFICIENT RESOURCES]");
    }
    proof {
        reveal_strlit("\n\n");
        reveal_strlit("[AFFORDABLE]");
        reveal_strlit("[INSUFFICIENT RESOURCES]");
    }
    s
}

} // verus!
