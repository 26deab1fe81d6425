//! Wave spawning: one timer per enemy archetype, whose interval shrinks and
//! whose chance of spawning several enemies at once grows as enemies come.
use vstd::prelude::*;
use crate::emitters::INTERVAL_LIMIT;
use crate::enemies::Enemy;
use crate::fixed::DT_LIMIT;
use crate::rng::random_below;

verus! {

/// Interval decrease per spawned enemy, in milliseconds.
pub const INTERVAL_STEP: u64 = 100;

/// Increase of the double-spawn chance per batch, in thousandths.
pub const CHANCE_STEP: u64 = 50;

/// Most enemies in one batch.
pub const MAX_BATCH: u64 = 16;

/// Fractions are drawn as thousandths in `0..ROLL_RANGE`.
pub const ROLL_RANGE: u64 = 1000;

/// Lowest value the accumulator can reach while batches are released.
pub const TIME_FLOOR: i64 = -16_000_000_000;

/// An archetype's spawn schedule; times in milliseconds, chances in
/// thousandths; `enemy` is the pristine template.
pub struct Wave {
    pub interval: u64,
    pub min_interval: u64,
    pub double_spawn_chance: u64,
    pub max_double_spawn_chance: u64,
    pub time: i64,
    pub enemy: Enemy,
}

impl Wave {
    pub open spec fn ok(self) -> bool {
        &&& 0 < self.min_interval <= self.interval <= INTERVAL_LIMIT
        &&& self.double_spawn_chance <= self.max_double_spawn_chance <= ROLL_RANGE
        &&& TIME_FLOOR <= self.time <= INTERVAL_LIMIT + DT_LIMIT
    }
}

/// The interval after `n` spawns: down by one step per spawn, never below
/// `min`.
pub open spec fn decayed(interval: int, min: int, n: nat) -> int {
    if n == 0 {
        interval
    } else if interval - INTERVAL_STEP * n < min {
        min
    } else {
        interval - INTERVAL_STEP * n
    }
}

/// Accumulated time that `n` spawns use up: each spawn takes the interval in
/// force before it.
pub open spec fn spent(interval: int, min: int, n: nat) -> int
    decreases n,
{
    if n == 0 {
        0
    } else {
        spent(interval, min, (n - 1) as nat) + decayed(interval, min, (n - 1) as nat)
    }
}

/// The chance after one more batch.
pub open spec fn raised(chance: int, max: int) -> int {
    if chance + CHANCE_STEP > max {
        max
    } else {
        chance + CHANCE_STEP
    }
}

proof fn lemma_decay_step(interval: int, min: int, n: nat)
    requires
        0 < min <= interval,
    ensures
        decayed(interval, min, n + 1) == if decayed(interval, min, n) - INTERVAL_STEP < min {
            min
        } else {
            decayed(interval, min, n) - INTERVAL_STEP
        },
        min <= decayed(interval, min, n + 1) <= decayed(interval, min, n) <= interval,
{
}

/// The interval never falls below the minimum, never grows, and reaches the
/// minimum exactly once enough enemies have spawned.
pub proof fn lemma_decay_floor(interval: int, min: int, n: nat, m: nat)
    requires
        0 < min <= interval,
        n <= m,
    ensures
        min <= decayed(interval, min, m) <= decayed(interval, min, n) <= interval,
        INTERVAL_STEP * m >= interval - min ==> decayed(interval, min, m) == min,
{
}

/// Releases one batch of `amount` enemies: the double-spawn chance rises by
/// one step up to its maximum, and each enemy uses up the current interval
/// from the accumulator and then shortens it by one step, down to the
/// minimum. The caller places the enemies.
pub fn release_batch(wave: &mut Wave, amount: u64)
    requires
        old(wave).ok(),
        old(wave).time > old(wave).interval,
        1 <= amount <= MAX_BATCH,
    ensures
        final(wave).ok(),
        final(wave).double_spawn_chance == raised(
            old(wave).double_spawn_chance as int,
            old(wave).max_double_spawn_chance as int,
        ),
        final(wave).interval == decayed(old(wave).interval as int, old(wave).min_interval as int, amount as nat),
        final(wave).time == old(wave).time - spent(
            old(wave).interval as int,
            old(wave).min_interval as int,
            amount as nat,
        ),
        final(wave).min_interval == old(wave).min_interval,
        final(wave).max_double_spawn_chance == old(wave).max_double_spawn_chance,
        final(wave).enemy == old(wave).enemy,
{
    if wave.double_spawn_chance + CHANCE_STEP > wave.max_double_spawn_chance {
        wave.double_spawn_chance = wave.max_double_spawn_chance;
    } else {
        wave.double_spawn_chance = wave.double_spawn_chance + CHANCE_STEP;
    }
    let ghost i0 = old(wave).interval as int;
    let ghost m = old(wave).min_interval as int;
    let ghost t0 = old(wave).time as int;
    let mut k: u64 = 0;
    while k < amount
        invariant
            0 < m <= i0 <= INTERVAL_LIMIT,
            t0 > i0,
            t0 <= INTERVAL_LIMIT + DT_LIMIT,
            amount <= MAX_BATCH,
            k <= amount,
            wave.min_interval == m,
            wave.interval == decayed(i0, m, k as nat),
            wave.time == t0 - spent(i0, m, k as nat),
            0 <= spent(i0, m, k as nat) <= k * i0,
            wave.double_spawn_chance == raised(
                old(wave).double_spawn_chance as int,
                old(wave).max_double_spawn_chance as int,
            ),
            wave.max_double_spawn_chance == old(wave).max_double_spawn_chance,
            wave.enemy == old(wave).enemy,
        decreases amount - k,
    {
        proof {
            lemma_decay_step(i0, m, k as nat);
            lemma_decay_floor(i0, m, 0, k as nat);
            assert(k * i0 + i0 == (k + 1) * i0) by (nonlinear_arith);
            assert((k + 1) * i0 <= 16 * i0) by (nonlinear_arith)
                requires
                    k + 1 <= 16,
                    i0 > 0,
            ;
        }
        wave.time = wave.time - wave.interval as i64;
        if wave.interval < wave.min_interval + INTERVAL_STEP {
            wave.interval = wave.min_interval;
        } else {
            wave.interval = wave.interval - INTERVAL_STEP;
        }
        k = k + 1;
    }
    proof {
        lemma_decay_floor(i0, m, 0, amount as nat);
        assert(amount * i0 <= 16 * i0) by (nonlinear_arith)
            requires
                amount <= 16,
                i0 > 0,
        ;
    }
}


proof fn lemma_decay_compose(interval: int, min: int, a: nat, b: nat)
    requires
        0 < min <= interval,
    ensures
        decayed(decayed(interval, min, a), min, b) == decayed(interval, min, a + b),
        spent(interval, min, a + b) == spent(interval, min, a) + spent(decayed(interval, min, a), min, b),
    decreases b,
{
    lemma_decay_floor(interval, min, 0, a);
    if b > 0 {
        lemma_decay_compose(interval, min, a, (b - 1) as nat);
        lemma_decay_step(decayed(interval, min, a), min, (b - 1) as nat);
        lemma_decay_step(interval, min, (a + b - 1) as nat);
        assert((a + b - 1) as nat + 1 == a + b);
    }
}

/// Whether a batch that holds `amount` enemies grows by one more, given the
/// draw `roll` from `0..ROLL_RANGE`: it does when `roll / 1000` is below
/// `chance / amount²`.
pub fn chain_continues(roll: u64, chance: u64, amount: u64) -> (r: bool)
    requires
        roll < ROLL_RANGE,
        1 <= amount <= MAX_BATCH,
    ensures
        r == (roll * amount * amount < chance),
{
    assert(amount * amount <= 256) by (nonlinear_arith)
        requires
            1 <= amount <= 16,
    ;
    let sq: u64 = amount * amount;
    assert(roll * sq <= 1000 * 16 * 16) by (nonlinear_arith)
        requires
            roll < 1000,
            sq == amount * amount,
            1 <= amount <= 16,
    ;
    assert(roll * sq == roll * amount * amount) by (nonlinear_arith)
        requires
            sq == amount * amount,
    ;
    roll * sq < chance
}

/// Draws the size of a batch: one, then one more as long as a fresh draw
/// continues the chain, at most `MAX_BATCH`.
fn draw_spawn_amount(chance: u64) -> (r: u64)
    ensures
        1 <= r <= MAX_BATCH,
        chance == 0 ==> r == 1,
{
    let mut amount: u64 = 1;
    while amount < MAX_BATCH
        invariant
            1 <= amount <= MAX_BATCH,
            chance == 0 ==> amount == 1,
        decreases MAX_BATCH - amount,
    {
        let roll = random_below(ROLL_RANGE);
        if chain_continues(roll, chance, amount) {
            amount = amount + 1;
        } else {
            break;
        }
    }
    amount
}

/// One tick of a wave: while the accumulator exceeds the interval, a batch
/// of random size is released (see `release_batch`); then `dt` is added.
/// Returns how many enemies the host is to place.
pub fn update_wave(wave: &mut Wave, dt: u64) -> (n: u64)
    requires
        old(wave).ok(),
        dt <= DT_LIMIT,
    ensures
        final(wave).ok(),
        final(wave).interval == decayed(old(wave).interval as int, old(wave).min_interval as int, n as nat),
        final(wave).time == old(wave).time - spent(
            old(wave).interval as int,
            old(wave).min_interval as int,
            n as nat,
        ) + dt,
        final(wave).time - dt <= final(wave).interval,
        old(wave).double_spawn_chance <= final(wave).double_spawn_chance
            <= final(wave).max_double_spawn_chance,
        old(wave).time <= old(wave).interval ==> n == 0 && final(wave).double_spawn_chance
            == old(wave).double_spawn_chance,
        old(wave).time > old(wave).interval ==> n >= 1,
        final(wave).min_interval == old(wave).min_interval,
        final(wave).max_double_spawn_chance == old(wave).max_double_spawn_chance,
        final(wave).enemy == old(wave).enemy,
{
    let ghost i0 = old(wave).interval as int;
    let ghost m = old(wave).min_interval as int;
    let ghost t0 = old(wave).time as int;
    let mut n: u64 = 0;
    while wave.time > wave.interval as i64
        invariant
            wave.ok(),
            0 < m <= i0,
            wave.min_interval == m,
            wave.interval == decayed(i0, m, n as nat),
            wave.time == t0 - spent(i0, m, n as nat),
            n * m <= spent(i0, m, n as nat),
            t0 <= INTERVAL_LIMIT + DT_LIMIT,
            old(wave).double_spawn_chance <= wave.double_spawn_chance,
            wave.max_double_spawn_chance == old(wave).max_double_spawn_chance,
            wave.enemy == old(wave).enemy,
            t0 <= i0 ==> n == 0 && wave.double_spawn_chance == old(wave).double_spawn_chance,
            t0 > i0 ==> n >= 1 || wave.time == t0,
        decreases wave.time - TIME_FLOOR,
    {
        let amount = draw_spawn_amount(wave.double_spawn_chance);
        let ghost before = wave.interval as int;
        let ghost tb = wave.time as int;
        release_batch(wave, amount);
        proof {
            lemma_decay_compose(i0, m, n as nat, amount as nat);
            lemma_decay_floor(i0, m, 0, n as nat);
            assert(spent(before, m, amount as nat) >= amount * m) by {
                lemma_spent_floor(before, m, amount as nat);
            }
            assert(n * m + amount * m == (n + amount) * m) by (nonlinear_arith);
            assert(amount * m >= 1) by (nonlinear_arith)
                requires
                    amount >= 1,
                    m >= 1,
            ;
            assert(wave.time < tb);
            assert(n * m <= 2_000_000_000) by (nonlinear_arith)
                requires
                    n * m <= spent(i0, m, n as nat),
                    spent(i0, m, n as nat) == t0 - tb,
                    t0 <= INTERVAL_LIMIT + DT_LIMIT,
                    tb > before,
                    before > 0,
            ;
            assert(n <= 2_000_000_000) by (nonlinear_arith)
                requires
                    n * m <= 2_000_000_000,
                    m >= 1,
            ;
        }
        n = n + amount;
    }
    wave.time = wave.time + dt as i64;
    n
}

proof fn lemma_spent_floor(interval: int, min: int, n: nat)
    requires
        0 < min <= interval,
    ensures
        spent(interval, min, n) >= n * min,
    decreases n,
{
    if n > 0 {
        lemma_spent_floor(interval, min, (n - 1) as nat);
        lemma_decay_floor(interval, min, 0, (n - 1) as nat);
        assert(decayed(interval, min, (n - 1) as nat) >= min);
        assert(spent(interval, min, n) == spent(interval, min, (n - 1) as nat) + decayed(
            interval,
            min,
            (n - 1) as nat,
        ));
        assert((n - 1) * min + min == n * min) by (nonlinear_arith);
    } else {
        assert(n * min == 0) by (nonlinear_arith)
            requires
                n == 0,
        ;
    }
}

} // verus!
