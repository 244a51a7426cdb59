//! Deterministic sampling from an agent distribution.
//!
//! Sampling draws uniform values from a linear congruential generator
//! (Knuth's MMIX constants) seeded with a fixed value, so that the same
//! distribution always yields the same samples. Each draw keeps the top
//! 31 bits of the 64-bit state; divided by 2^31 it is a value in [0, 1),
//! which is located in the cumulative weights to pick a support point.

use vstd::prelude::*;

verus! {

/// Multiplier of the generator.
pub const LCG_MULTIPLIER: u64 = 6364136223846793005u64;

/// Increment of the generator.
pub const LCG_INCREMENT: u64 = 1442695040888963407u64;

/// Seed that `sample` starts from.
pub const SAMPLE_SEED: u64 = 42u64;

/// One step of the generator: `s * MULTIPLIER + INCREMENT` modulo 2^64.
pub open spec fn lcg_step(s: u64) -> u64 {
    ((s as nat * LCG_MULTIPLIER as nat + LCG_INCREMENT as nat) % 0x1_0000_0000_0000_0000nat) as u64
}

/// The state after `k` steps from `seed`.
pub open spec fn lcg_state(seed: u64, k: nat) -> u64
    decreases k,
{
    if k == 0 {
        seed
    } else {
        lcg_step(lcg_state(seed, (k - 1) as nat))
    }
}

/// The value a state yields: its top 31 bits.
pub open spec fn draw_of(s: u64) -> u32 {
    (s >> 33u64) as u32
}

/// The simple linear congruential generator used for deterministic sampling.
pub struct SimpleRng {
    state: u64,
}

impl SimpleRng {
    /// The current 64-bit state.
    pub closed spec fn state(&self) -> u64 {
        self.state
    }

    /// A generator whose state is `seed`.
    pub fn new(seed: u64) -> (rng: Self)
        ensures
            rng.state() == seed,
    {
        Self { state: seed }
    }

    /// Advance the generator by one step and return the top 31 bits of the
    /// new state (a value below 2^31; divided by 2^31 it lies in [0, 1)).
    pub fn next_raw(&mut self) -> (x: u32)
        ensures
            final(self).state() == lcg_step(old(self).state()),
            x == draw_of(final(self).state()),
            x < 0x8000_0000u32,
    {
        let s = self.state;
        let p = s.wrapping_mul(LCG_MULTIPLIER);
        let t = p.wrapping_add(LCG_INCREMENT);
        proof {
            lemma_wrapping_step(s, p, t);
        }
        self.state = t;
        assert(t >> 33u64 < 0x8000_0000u64) by (bit_vector);
        (t >> 33u64) as u32
    }
}

/// The draws that sampling `count` points uses: a generator seeded with
/// `SAMPLE_SEED`, advanced once per sample; the `k`-th draw is taken from
/// the state after `k + 1` steps.
pub fn sample_draws(count: usize) -> (draws: Vec<u32>)
    ensures
        draws.len() == count,
        forall|k: int|
            0 <= k < count ==> #[trigger] draws[k] == draw_of(lcg_state(SAMPLE_SEED, (k + 1) as nat)),
        forall|k: int| 0 <= k < count ==> #[trigger] draws[k] < 0x8000_0000u32,
        forall|k: int|
            0 <= k < count ==> #[trigger] draws[k] as u64 == lcg_state(SAMPLE_SEED, (k + 1) as nat)
                >> 33u64,
{
    let mut rng = SimpleRng::new(SAMPLE_SEED);
    let mut draws: Vec<u32> = Vec::new();
    let mut i: usize = 0;
    while i < count
        invariant
            i <= count,
            draws.len() == i,
            rng.state() == lcg_state(SAMPLE_SEED, i as nat),
            forall|k: int|
                0 <= k < i ==> #[trigger] draws[k] == draw_of(lcg_state(SAMPLE_SEED, (k + 1) as nat)),
            forall|k: int| 0 <= k < i ==> #[trigger] draws[k] < 0x8000_0000u32,
            forall|k: int|
                0 <= k < i ==> #[trigger] draws[k] as u64 == lcg_state(SAMPLE_SEED, (k + 1) as nat)
                    >> 33u64,
        decreases count - i,
    {
        let x = rng.next_raw();
        proof {
            lemma_draw_is_top_bits(rng.state());
        }
        draws.push(x);
        i = i + 1;
    }
    draws
}

/// The support index that a search of the cumulative weights selects.
///
/// `Ok(i)`: the draw equals the cumulative weight at `i`. `Err(i)`: the draw
/// falls before position `i`; a position past the last point (rounding left
/// the total weight below the draw) selects the last point.
pub open spec fn chosen_index(n_points: usize, search: Result<usize, usize>) -> usize {
    match search {
        Ok(i) => i,
        Err(i) => if i < n_points - 1 {
            i
        } else {
            (n_points - 1) as usize
        },
    }
}

/// Turn the outcome of a binary search of the cumulative weights into the
/// index of the sampled support point.
pub fn sample_index(n_points: usize, search: Result<usize, usize>) -> (idx: usize)
    requires
        n_points > 0,
        search matches Ok(i) ==> i < n_points,
    ensures
        idx == chosen_index(n_points, search),
        idx < n_points,
        search matches Ok(i) ==> idx == i,
        search matches Err(i) ==> (i < n_points ==> idx == i),
        search matches Err(i) ==> (i >= n_points ==> idx == n_points - 1),
{
    match search {
        Ok(i) => i,
        Err(i) => if i < n_points - 1 {
            i
        } else {
            n_points - 1
        },
    }
}

/// The generator's states: the state after zero steps is the seed, and the
/// state after `k + 1` steps is `s * MULTIPLIER + INCREMENT` modulo 2^64 for
/// the state `s` after `k` steps, for every `k`.
pub proof fn lemma_lcg_state_steps(seed: u64, k: nat)
    ensures
        lcg_state(seed, 0) == seed,
        lcg_state(seed, k + 1) as int == (lcg_state(seed, k) as int * 6364136223846793005int
            + 1442695040888963407int) % 0x1_0000_0000_0000_0000int,
{
    let s = lcg_state(seed, k);
    assert(lcg_state(seed, k + 1) == lcg_step(s));
    let v: int = (s as int * 6364136223846793005int + 1442695040888963407int);
    vstd::arithmetic::div_mod::lemma_mod_bound(v, 0x1_0000_0000_0000_0000int);
}

/// A draw is the state divided by 2^33 (its top 31 bits), below 2^31.
pub proof fn lemma_draw_is_top_bits(s: u64)
    ensures
        draw_of(s) as int == s as int / 0x2_0000_0000int,
        draw_of(s) as u64 == s >> 33u64,
        draw_of(s) < 0x8000_0000u32,
{
    assert(s >> 33u64 == s / 0x2_0000_0000u64) by (bit_vector);
    assert(s >> 33u64 < 0x8000_0000u64) by (bit_vector);
}

/// The index chosen for a search outcome: a found position is kept, and a
/// draw that falls before position `i` selects point `i`, or the last point
/// when `i` is past it.
pub proof fn lemma_chosen_index_clamps(n_points: usize, i: usize)
    requires
        n_points > 0,
    ensures
        chosen_index(n_points, Ok(i)) == i,
        i < n_points ==> chosen_index(n_points, Err(i)) == i,
        i >= n_points ==> chosen_index(n_points, Err(i)) == n_points - 1,
        chosen_index(n_points, Err(i)) as int == if i < n_points { i as int } else { n_points - 1 },
{
}

proof fn lemma_wrapping_step(s: u64, p: u64, t: u64)
    requires
        p == vstd::wrapping::u64_specs::wrapping_mul(s, LCG_MULTIPLIER),
        t == vstd::wrapping::u64_specs::wrapping_add(p, LCG_INCREMENT),
    ensures
        t == lcg_step(s),
{
    let m: int = 0x1_0000_0000_0000_0000int;
    let prod: int = s as int * LCG_MULTIPLIER as int;
    vstd::arithmetic::div_mod::lemma_add_mod_noop(prod, LCG_INCREMENT as int, m);
    vstd::arithmetic::div_mod::lemma_small_mod(LCG_INCREMENT as nat, m as nat);
    vstd::arithmetic::div_mod::lemma_mod_bound(prod, m);
    vstd::arithmetic::div_mod::lemma_mod_bound(prod + LCG_INCREMENT as int, m);
    let q: int = prod % m;
    if q + LCG_INCREMENT as int >= m {
        let r: int = q + LCG_INCREMENT as int - m;
        vstd::arithmetic::div_mod::lemma_mod_multiples_vanish(1, r, m);
        vstd::arithmetic::div_mod::lemma_small_mod(r as nat, m as nat);
        assert(m * 1 + r == q + LCG_INCREMENT as int);
    } else {
        vstd::arithmetic::div_mod::lemma_small_mod((q + LCG_INCREMENT as int) as nat, m as nat);
    }
}

} // verus!
