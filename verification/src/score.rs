use vstd::prelude::*;

verus! {

/// Points and enemy counts for the running game.
#[derive(Debug, Clone, Copy, PartialEq, Eq, Structural)]
pub struct Score {
    pub current: u32,
    pub enemies_killed: u32,
    pub enemies_escaped: u32,
}

/// Something that changes the score: a kill worth some points, or an escape.
#[derive(Debug, Clone, Copy, PartialEq, Eq, Structural)]
pub enum ScoreEvent {
    Killed(u32),
    Escaped,
}

/// The score after one event.
pub open spec fn score_step(s: Score, e: ScoreEvent) -> Score {
    match e {
        ScoreEvent::Killed(points) => Score {
            current: (s.current + points) as u32,
            enemies_killed: (s.enemies_killed + 1) as u32,
            enemies_escaped: s.enemies_escaped,
        },
        ScoreEvent::Escaped => Score { enemies_escaped: (s.enemies_escaped + 1) as u32, ..s },
    }
}

/// The score after the events, in order, starting from zero.
pub open spec fn score_after(events: Seq<ScoreEvent>) -> Score
    decreases events.len(),
{
    if events.len() == 0 {
        Score { current: 0, enemies_killed: 0, enemies_escaped: 0 }
    } else {
        score_step(score_after(events.drop_last()), events.last())
    }
}

/// Number of kills among the events.
pub open spec fn kill_count(events: Seq<ScoreEvent>) -> nat
    decreases events.len(),
{
    if events.len() == 0 {
        0
    } else {
        kill_count(events.drop_last()) + (if events.last() is Killed { 1nat } else { 0nat })
    }
}

/// Number of escapes among the events.
pub open spec fn escape_count(events: Seq<ScoreEvent>) -> nat
    decreases events.len(),
{
    if events.len() == 0 {
        0
    } else {
        escape_count(events.drop_last()) + (if events.last() is Escaped { 1nat } else { 0nat })
    }
}

/// Sum of the points of the kills among the events.
pub open spec fn points_total(events: Seq<ScoreEvent>) -> nat
    decreases events.len(),
{
    if events.len() == 0 {
        0
    } else {
        points_total(events.drop_last()) + (match events.last() {
            ScoreEvent::Killed(p) => p as nat,
            ScoreEvent::Escaped => 0nat,
        })
    }
}

/// Starting from a new score, any mix of kills and escapes leaves the score
/// at the sum of the kills' points, the kill count at the number of kills,
/// the escape count at the number of escapes, and the total at their sum,
/// as long as nothing overflows.
pub proof fn law_score_counts_every_event(events: Seq<ScoreEvent>)
    requires
        points_total(events) <= u32::MAX,
        kill_count(events) + escape_count(events) <= u32::MAX,
    ensures
        score_after(events) == (Score {
            current: points_total(events) as u32,
            enemies_killed: kill_count(events) as u32,
            enemies_escaped: escape_count(events) as u32,
        }),
        score_after(events).enemies_killed + score_after(events).enemies_escaped == events.len(),
    decreases events.len(),
{
    if events.len() > 0 {
        law_score_counts_every_event(events.drop_last());
    }
}

impl Score {
    /// All zero.
    pub fn new() -> (r: Self)
        ensures
            r == (Score { current: 0, enemies_killed: 0, enemies_escaped: 0 }),
    {
        Score { current: 0, enemies_killed: 0, enemies_escaped: 0 }
    }

    /// Records a kill worth `points`.
    pub fn enemy_killed(&mut self, points: u32)
        requires
            old(self).current + points <= u32::MAX,
            old(self).enemies_killed < u32::MAX,
        ensures
            final(self).current == old(self).current + points,
            final(self).enemies_killed == old(self).enemies_killed + 1,
            final(self).enemies_escaped == old(self).enemies_escaped,
            *final(self) == score_step(*old(self), ScoreEvent::Killed(points)),
    {
        self.current += points;
        self.enemies_killed += 1;
    }

    /// Records an enemy that reached the end of the path.
    pub fn enemy_escaped(&mut self)
        requires
            old(self).enemies_escaped < u32::MAX,
        ensures
            final(self).current == old(self).current,
            final(self).enemies_killed == old(self).enemies_killed,
            final(self).enemies_escaped == old(self).enemies_escaped + 1,
            *final(self) == score_step(*old(self), ScoreEvent::Escaped),
    {
        self.enemies_escaped += 1;
    }

    /// Enemies killed plus enemies escaped.
    pub fn total_enemies(&self) -> (r: u32)
        requires
            self.enemies_killed + self.enemies_escaped <= u32::MAX,
        ensures
            r == self.enemies_killed + self.enemies_escaped,
    {
        self.enemies_killed + self.enemies_escaped
    }
}

impl Default for Score {
    fn default() -> (r: Self)
        ensures
            r == (Score { current: 0, enemies_killed: 0, enemies_escaped: 0 }),
    {
        Score::new()
    }
}

} // verus!
