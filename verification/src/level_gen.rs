use vstd::prelude::*;
use std::time::{Duration, UNIX_EPOCH};
use crate::grid::{GridPos, PathGrid};

verus! {

/// `SystemTime::elapsed` on `UNIX_EPOCH`: the time since the epoch by the
/// system clock, or `None` when the clock reads before the epoch. It depends
/// on the clock, so nothing is claimed of it.
#[verifier::external_body]
fn time_since_epoch() -> Option<Duration> {
    match UNIX_EPOCH.elapsed() {
        Ok(d) => Some(d),
        Err(_) => None,
    }
}

/// `Duration::as_millis`: whole milliseconds in `d`. Durations are opaque
/// here, so nothing is claimed of the value.
#[verifier::external_body]
fn whole_millis(d: &Duration) -> u128 {
    d.as_millis()
}

/// The multiplier of the seed mix.
pub const SEED_MULTIPLIER: u64 = 1103515245;

/// The increment of the seed mix.
pub const SEED_INCREMENT: u64 = 12345;

/// The value mixed in when the clock cannot be read.
pub const FALLBACK_SEED_BASE: u64 = 42;

/// Spreads `m` over the seed space: `m * 1103515245 + 12345`, wrapping at 2^64.
pub open spec fn mix_seed(m: u64) -> u64 {
    ((m * SEED_MULTIPLIER + SEED_INCREMENT) % 0x1_0000_0000_0000_0000) as u64
}

/// The mix of `m` (see `mix_seed`).
pub fn seed_from_millis(m: u64) -> (r: u64)
    ensures
        r == mix_seed(m),
{
    let a = m.wrapping_mul(SEED_MULTIPLIER);
    let r = a.wrapping_add(SEED_INCREMENT);
    proof {
        let n: int = 0x1_0000_0000_0000_0000;
        let x: int = m * SEED_MULTIPLIER;
        vstd::arithmetic::div_mod::lemma_add_mod_noop(x, SEED_INCREMENT as int, n);
        assert(a == x % n);
        assert((SEED_INCREMENT as int) % n == SEED_INCREMENT as int);
        assert(0 <= a + SEED_INCREMENT < 2 * n);
        vstd::arithmetic::div_mod::lemma_mod_self_0(n);
        if a + SEED_INCREMENT >= n {
            vstd::arithmetic::div_mod::lemma_mod_sub_multiples_vanish(a + SEED_INCREMENT, n);
            vstd::arithmetic::div_mod::lemma_small_mod((a + SEED_INCREMENT - n) as nat, n as nat);
        } else {
            vstd::arithmetic::div_mod::lemma_small_mod((a + SEED_INCREMENT) as nat, n as nat);
        }
    }
    r
}

/// The seed for a clock reading in milliseconds since the epoch: the
/// reading taken modulo 2^64 and mixed by `mix_seed`, or the mix of
/// `FALLBACK_SEED_BASE` when the clock read before the epoch (`None`).
pub open spec fn startup_seed_from(reading: Option<u128>) -> u64 {
    match reading {
        Option::Some(ms) => mix_seed(ms as u64),
        Option::None => mix_seed(FALLBACK_SEED_BASE),
    }
}

/// The seed for a clock reading (see `startup_seed_from`).
pub fn seed_from_reading(reading: Option<u128>) -> (r: u64)
    ensures
        r == startup_seed_from(reading),
{
    match reading {
        Option::Some(ms) => seed_from_millis(ms as u64),
        Option::None => seed_from_millis(FALLBACK_SEED_BASE),
    }
}

/// A seed for the map of this run, from the system clock's milliseconds
/// since the epoch (see `startup_seed_from`); a new reading on every call.
pub fn generate_startup_seed() -> (r: u64)
    ensures
        exists|reading: Option<u128>| r == #[trigger] startup_seed_from(reading),
{
    let reading = match time_since_epoch() {
        Option::Some(d) => Option::Some(whole_millis(&d)),
        Option::None => Option::None,
    };
    seed_from_reading(reading)
}

/// Different milliseconds give different seeds: the mix is one-to-one, as
/// its multiplier is odd.
pub proof fn law_mix_seed_injective(a: u64, b: u64)
    requires
        a != b,
    ensures
        mix_seed(a) != mix_seed(b),
{
    assert(((a * 1103515245u64 + 12345u64) % 0x1_0000_0000_0000_0000) as u64 != ((b * 1103515245u64 + 12345u64)
        % 0x1_0000_0000_0000_0000) as u64) by (bit_vector)
        requires
            a != b,
    ;
}

/// The fixed seed of map generation for a wave.
pub open spec fn seed_of_wave(wave: int) -> int {
    wave * 12345 + 67890
}

/// The fixed seed for `wave`: `wave * 12345 + 67890`.
pub fn wave_seed(wave: u32) -> (r: u64)
    ensures
        r == seed_of_wave(wave as int),
{
    wave as u64 * 12345 + 67890
}

/// The zones offered when no better tower zones are found: four corner
/// areas and two central ones, as (top-left, bottom-right) cells, each kept
/// only when both corners lie on the map.
pub open spec fn fallback_zone_candidates() -> Seq<(GridPos, GridPos)> {
    seq![
        (GridPos { x: 2, y: 1 }, GridPos { x: 4, y: 3 }),
        (GridPos { x: 13, y: 1 }, GridPos { x: 15, y: 3 }),
        (GridPos { x: 2, y: 6 }, GridPos { x: 4, y: 8 }),
        (GridPos { x: 13, y: 6 }, GridPos { x: 15, y: 8 }),
        (GridPos { x: 7, y: 1 }, GridPos { x: 10, y: 3 }),
        (GridPos { x: 7, y: 6 }, GridPos { x: 10, y: 8 }),
    ]
}

/// The zones of `zs` whose corners both lie on a `width` by `height` map, in order.
pub open spec fn zones_on_map(zs: Seq<(GridPos, GridPos)>, width: nat, height: nat) -> Seq<(GridPos, GridPos)>
    decreases zs.len(),
{
    if zs.len() == 0 {
        seq![]
    } else {
        let rest = zones_on_map(zs.drop_last(), width, height);
        let z = zs.last();
        if z.0.x < width && z.0.y < height && z.1.x < width && z.1.y < height {
            rest.push(z)
        } else {
            rest
        }
    }
}

/// The candidates of `fallback_zone_candidates` whose corners lie on `grid`, in order.
pub fn fallback_zone_rects(grid: &PathGrid) -> (r: Vec<(GridPos, GridPos)>)
    ensures
        r@ == zones_on_map(fallback_zone_candidates(), grid.width as nat, grid.height as nat),
{
    let mut candidates: Vec<(GridPos, GridPos)> = Vec::new();
    candidates.push((GridPos::new(2, 1), GridPos::new(4, 3)));
    candidates.push((GridPos::new(13, 1), GridPos::new(15, 3)));
    candidates.push((GridPos::new(2, 6), GridPos::new(4, 8)));
    candidates.push((GridPos::new(13, 6), GridPos::new(15, 8)));
    candidates.push((GridPos::new(7, 1), GridPos::new(10, 3)));
    candidates.push((GridPos::new(7, 6), GridPos::new(10, 8)));
    assert(candidates@ =~= fallback_zone_candidates());
    let mut r: Vec<(GridPos, GridPos)> = Vec::new();
    let mut i: usize = 0;
    while i < candidates.len()
        invariant
            i <= candidates@.len(),
            candidates@ == fallback_zone_candidates(),
            r@ == zones_on_map(candidates@.take(i as int), grid.width as nat, grid.height as nat),
        decreases candidates.len() - i,
    {
        proof {
            assert(candidates@.take(i + 1).drop_last() =~= candidates@.take(i as int));
        }
        let (start, end) = candidates[i];
        proof {
            let t = candidates@.take(i + 1);
            assert(t.last() == (start, end));
        }
        if start.x < grid.width && start.y < grid.height && end.x < grid.width && end.y < grid.height {
            r.push((start, end));
        }
        i += 1;
    }
    assert(candidates@.take(candidates.len() as int) =~= candidates@);
    r
}

/// Cells in the rectangle from `top_left` to `bottom_right`, both included.
pub fn rect_area(top_left: GridPos, bottom_right: GridPos) -> (r: usize)
    requires
        top_left.x <= bottom_right.x,
        top_left.y <= bottom_right.y,
        (bottom_right.x - top_left.x + 1) * (bottom_right.y - top_left.y + 1) <= usize::MAX,
    ensures
        r == (bottom_right.x - top_left.x + 1) * (bottom_right.y - top_left.y + 1),
{
    proof {
        let w: int = bottom_right.x - top_left.x + 1;
        let h: int = bottom_right.y - top_left.y + 1;
        assert(w <= w * h && h <= w * h) by (nonlinear_arith)
            requires
                w >= 1,
                h >= 1,
        ;
    }
    let width = bottom_right.x - top_left.x + 1;
    let height = bottom_right.y - top_left.y + 1;
    width * height
}

} // verus!
