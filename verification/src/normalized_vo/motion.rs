//! Deterministic sampling for the RANSAC loop of the essential-matrix
//! estimator: a linear congruential generator and the draw of eight
//! distinct correspondence indices.
use vstd::prelude::*;
use crate::normalized_vo::types::VoError;

verus! {

/// Multiplier of the generator.
pub const LCG_MUL: u64 = 6364136223846793005;
/// Increment of the generator.
pub const LCG_INC: u64 = 1442695040888963407;
/// Number of correspondences drawn for one eight-point hypothesis.
pub const SAMPLE_SIZE: usize = 8;
/// Fewest correspondences, and fewest RANSAC inliers, the essential-matrix
/// estimator works with.
pub const MIN_POINTS_8PT: usize = 8;

/// One step of the generator: `state * LCG_MUL + LCG_INC` modulo 2^64.
pub open spec fn lcg_step(state: u64) -> u64 {
    vstd::wrapping::u64_specs::wrapping_add(
        vstd::wrapping::u64_specs::wrapping_mul(state, LCG_MUL),
        LCG_INC,
    )
}

/// The state after a draw below `max`, and the value drawn: for `max == 0`
/// nothing is drawn and 0 is returned; otherwise the generator steps and the
/// new state is reduced modulo `max`.
pub open spec fn draw_below(state: u64, max: usize) -> (u64, usize) {
    if max == 0 {
        (state, 0usize)
    } else {
        let s = lcg_step(state);
        (s, (s as int % max as int) as usize)
    }
}

/// Minimal linear congruential generator (no outside randomness).
pub struct SimpleRng {
    state: u64,
}

impl View for SimpleRng {
    type V = u64;

    closed spec fn view(&self) -> u64 {
        self.state
    }
}

impl SimpleRng {
    /// A generator whose state is the seed.
    pub fn new(seed: u64) -> (rng: Self)
        ensures
            rng@ == seed,
    {
        SimpleRng { state: seed }
    }

    /// Advances the generator and returns its new state.
    pub fn next_u64(&mut self) -> (r: u64)
        ensures
            r == lcg_step(old(self)@),
            final(self)@ == r,
    {
        self.state = self.state.wrapping_mul(LCG_MUL).wrapping_add(LCG_INC);
        self.state
    }

    /// A value in `[0, max)`, or 0 without advancing when `max == 0`.
    pub fn next_usize(&mut self, max: usize) -> (r: usize)
        ensures
            (final(self)@, r) == draw_below(old(self)@, max),
            max > 0 ==> r < max,
            max == 0 ==> r == 0,
    {
        if max == 0 {
            return 0;
        }
        let v = self.next_u64();
        (v % (max as u64)) as usize
    }
}

/// Generator state, remaining candidates and drawn indices after `j` draws
/// of the sampling procedure over `0..n` seeded with `seed`.
pub open spec fn sample_state(n: nat, seed: u64, j: nat) -> (u64, Seq<usize>, Seq<usize>)
    decreases j,
{
    if j == 0 {
        (
            vstd::wrapping::u64_specs::wrapping_add(seed, 1),
            Seq::new(n, |i: int| i as usize),
            Seq::<usize>::empty(),
        )
    } else {
        let prev = sample_state(n, seed, (j - 1) as nat);
        let avail = prev.1;
        let d = draw_below(prev.0, avail.len() as usize);
        let idx = d.1 as int;
        (d.0, avail.update(idx, avail.last()).drop_last(), prev.2.push(avail[idx]))
    }
}

/// The eight indices drawn for `n` correspondences and the given seed.
pub open spec fn sampled_indices(n: nat, seed: u64) -> Seq<usize> {
    sample_state(n, seed, SAMPLE_SIZE as nat).2
}

/// All elements lie below `n` and no element occurs twice.
pub open spec fn distinct_below(s: Seq<usize>, n: nat) -> bool {
    &&& forall|i: int| 0 <= i < s.len() ==> #[trigger] s[i] < n
    &&& forall|i: int, k: int| 0 <= i < k < s.len() ==> s[i] != s[k]
}

/// While draws remain possible, the candidates and the drawn indices are
/// disjoint duplicate-free sets of values below `n`.
proof fn lemma_sample_state(n: nat, seed: u64, j: nat)
    requires
        j <= n,
        n <= usize::MAX,
    ensures
        sample_state(n, seed, j).1.len() == n - j,
        sample_state(n, seed, j).2.len() == j,
        distinct_below(sample_state(n, seed, j).1, n),
        distinct_below(sample_state(n, seed, j).2, n),
        forall|a: int, b: int|
            0 <= a < sample_state(n, seed, j).1.len() && 0 <= b < sample_state(n, seed, j).2.len()
                ==> sample_state(n, seed, j).1[a] != sample_state(n, seed, j).2[b],
    decreases j,
{
    if j > 0 {
        lemma_sample_state(n, seed, (j - 1) as nat);
        let prev = sample_state(n, seed, (j - 1) as nat);
        let avail = prev.1;
        let sample = prev.2;
        let d = draw_below(prev.0, avail.len() as usize);
        let idx = d.1 as int;
        assert(avail.len() > 0);
        assert(0 <= idx < avail.len());
        let na = avail.update(idx, avail.last()).drop_last();
        let ns = sample.push(avail[idx]);
        assert(sample_state(n, seed, j) == (d.0, na, ns));
        let last = avail.len() - 1;
        // every remaining candidate is an old candidate other than the one drawn
        assert forall|a: int| 0 <= a < na.len() implies #[trigger] na[a] == avail[if a == idx {
            last
        } else {
            a
        }] by {}
        assert forall|a: int, b: int| 0 <= a < b < na.len() implies na[a] != na[b] by {
            let ia = if a == idx { last } else { a };
            let ib = if b == idx { last } else { b };
            assert(na[a] == avail[ia]);
            assert(na[b] == avail[ib]);
        }
        assert forall|a: int| 0 <= a < na.len() implies na[a] != avail[idx] by {
            let ia = if a == idx { last } else { a };
            assert(na[a] == avail[ia]);
        }
        assert forall|a: int, b: int| 0 <= a < na.len() && 0 <= b < ns.len() implies na[a] != ns[b] by {
            let ia = if a == idx { last } else { a };
            assert(na[a] == avail[ia]);
            if b < sample.len() {
                assert(ns[b] == sample[b]);
            }
        }
        assert forall|a: int, b: int| 0 <= a < b < ns.len() implies ns[a] != ns[b] by {
            if b < sample.len() {
            } else {
                assert(ns[b] == avail[idx]);
                assert(ns[a] == sample[a]);
            }
        }
        assert forall|a: int| 0 <= a < na.len() implies #[trigger] na[a] < n by {
            let ia = if a == idx { last } else { a };
            assert(na[a] == avail[ia]);
        }
        assert forall|b: int| 0 <= b < ns.len() implies #[trigger] ns[b] < n by {
            if b < sample.len() {
                assert(ns[b] == sample[b]);
            }
        }
    }
}

/// Draws `SAMPLE_SIZE` distinct indices from `0..n` by repeatedly picking a
/// pseudo-random position among the remaining candidates and swap-removing it.
pub fn random_sample_8(n: usize, seed: u64) -> (sample: Vec<usize>)
    requires
        n >= SAMPLE_SIZE,
    ensures
        sample@ == sampled_indices(n as nat, seed),
        sample@.len() == SAMPLE_SIZE,
        distinct_below(sample@, n as nat),
{
    let mut rng = SimpleRng::new(seed.wrapping_add(1));
    let mut available: Vec<usize> = Vec::new();
    let mut i: usize = 0;
    while i < n
        invariant
            i <= n,
            available@ == Seq::new(i as nat, |k: int| k as usize),
        decreases n - i,
    {
        available.push(i);
        i = i + 1;
    }
    let mut sample: Vec<usize> = Vec::with_capacity(SAMPLE_SIZE);
    let mut j: usize = 0;
    proof {
        lemma_sample_state(n as nat, seed, 0);
    }
    while j < SAMPLE_SIZE
        invariant
            n >= SAMPLE_SIZE,
            j <= SAMPLE_SIZE,
            (rng@, available@, sample@) == sample_state(n as nat, seed, j as nat),
        decreases SAMPLE_SIZE - j,
    {
        proof {
            lemma_sample_state(n as nat, seed, j as nat);
        }
        let idx = rng.next_usize(n - j);
        let picked = available.swap_remove(idx);
        sample.push(picked);
        j = j + 1;
    }
    proof {
        lemma_sample_state(n as nat, seed, SAMPLE_SIZE as nat);
    }
    sample
}


/// The shorter of two lengths.
pub open spec fn min_len(a: usize, b: usize) -> usize {
    if a <= b {
        a
    } else {
        b
    }
}

/// Checks the correspondence lists handed to the essential-matrix
/// estimator: both must hold at least `MIN_POINTS_8PT` points and be equally
/// long; otherwise the shorter length is reported as too few matches.
pub fn check_correspondences<F>(n1: usize, n2: usize) -> (r: Result<(), VoError<F>>)
    ensures
        match r {
            Ok(()) => n1 >= MIN_POINTS_8PT && n2 >= MIN_POINTS_8PT && n1 == n2,
            Err(e) => {
                &&& !(n1 >= MIN_POINTS_8PT && n2 >= MIN_POINTS_8PT && n1 == n2)
                &&& e matches VoError::InsufficientMatches(m) && m == min_len(n1, n2)
            },
        },
{
    let shorter = if n1 <= n2 { n1 } else { n2 };
    if n1 < MIN_POINTS_8PT || n2 < MIN_POINTS_8PT {
        return Err(VoError::InsufficientMatches(shorter));
    }
    if n1 != n2 {
        return Err(VoError::InsufficientMatches(shorter));
    }
    Ok(())
}

/// Checks the best RANSAC consensus: at least `MIN_POINTS_8PT` inliers are
/// needed to refit the essential matrix; otherwise their number is reported.
pub fn check_inlier_count<F>(max_inliers: usize) -> (r: Result<(), VoError<F>>)
    ensures
        match r {
            Ok(()) => max_inliers >= MIN_POINTS_8PT,
            Err(e) => {
                &&& max_inliers < MIN_POINTS_8PT
                &&& e matches VoError::InsufficientMatches(m) && m == max_inliers
            },
        },
{
    if max_inliers < MIN_POINTS_8PT {
        Err(VoError::InsufficientMatches(max_inliers))
    } else {
        Ok(())
    }
}

/// `i` is the first position holding the largest count.
pub open spec fn is_first_max(counts: Seq<usize>, i: int) -> bool {
    &&& 0 <= i < counts.len()
    &&& forall|k: int| 0 <= k < i ==> #[trigger] counts[k] < counts[i]
    &&& forall|k: int| i < k < counts.len() ==> #[trigger] counts[k] <= counts[i]
}

/// The candidate pose with the most points in front of both cameras: the
/// first position with the largest count, or `None` when every count is zero.
pub fn first_max(counts: &[usize]) -> (r: Option<usize>)
    ensures
        match r {
            Some(i) => is_first_max(counts@, i as int) && counts@[i as int] > 0,
            None => forall|k: int| 0 <= k < counts@.len() ==> #[trigger] counts@[k] == 0,
        },
{
    let mut best: Option<usize> = None;
    let mut max_count: usize = 0;
    let mut i: usize = 0;
    while i < counts.len()
        invariant
            i <= counts@.len(),
            match best {
                Some(b) => {
                    &&& b < i
                    &&& counts@[b as int] == max_count
                    &&& max_count > 0
                    &&& forall|k: int| 0 <= k < b ==> #[trigger] counts@[k] < max_count
                    &&& forall|k: int| b < k < i ==> #[trigger] counts@[k] <= max_count
                },
                None => max_count == 0 && forall|k: int| 0 <= k < i ==> #[trigger] counts@[k] == 0,
            },
        decreases counts@.len() - i,
    {
        if counts[i] > max_count {
            max_count = counts[i];
            best = Some(i);
        }
        i = i + 1;
    }
    best
}


/// The first index drawn stays the first index of the sample.
proof fn lemma_first_draw_kept(n: nat, seed: u64, j: nat)
    requires
        1 <= j <= n,
        n <= usize::MAX,
    ensures
        sample_state(n, seed, j).2[0] == sample_state(n, seed, 1).2[0],
    decreases j,
{
    if j > 1 {
        lemma_first_draw_kept(n, seed, (j - 1) as nat);
        lemma_sample_state(n, seed, (j - 1) as nat);
    }
}

/// Law: the sampler's generator starts from `seed + 1` (modulo 2^64) and the
/// first index it draws is that state after one generator step, reduced
/// modulo `n`: `((seed + 1) * LCG_MUL + LCG_INC) mod 2^64 mod n`. Each seed
/// thus draws from its own generator state.
pub proof fn law_sampler_starts_after_seed(n: nat, seed: u64)
    requires
        SAMPLE_SIZE <= n <= usize::MAX,
    ensures
        sampled_indices(n, seed)[0] as int == ((((seed as int + 1) % 0x1_0000_0000_0000_0000int)
            * 6364136223846793005int + 1442695040888963407int) % 0x1_0000_0000_0000_0000int) % (
        n as int),
{
    let m: int = 0x1_0000_0000_0000_0000int;
    let s0 = vstd::wrapping::u64_specs::wrapping_add(seed, 1);
    assert(s0 as int == (seed as int + 1) % m) by {
        if seed as int + 1 == m {
            vstd::arithmetic::div_mod::lemma_mod_self_0(m);
        } else {
            vstd::arithmetic::div_mod::lemma_small_mod((seed as int + 1) as nat, m as nat);
        }
    }
    let prod = s0 as int * LCG_MUL as int;
    let a = vstd::wrapping::u64_specs::wrapping_mul(s0, LCG_MUL);
    assert(a as int == prod % m);
    let step = lcg_step(s0);
    assert(step as int == (a as int + LCG_INC as int) % m) by {
        if a as int + LCG_INC as int > u64::MAX as int {
            let t = a as int + LCG_INC as int;
            vstd::arithmetic::div_mod::lemma_fundamental_div_mod_converse(t, m, 1, t - m);
        } else {
            vstd::arithmetic::div_mod::lemma_small_mod((a as int + LCG_INC as int) as nat, m as nat);
        }
    }
    assert((a as int + LCG_INC as int) % m == (prod + LCG_INC as int) % m) by {
        vstd::arithmetic::div_mod::lemma_add_mod_noop(prod, LCG_INC as int, m);
        vstd::arithmetic::div_mod::lemma_small_mod(LCG_INC as nat, m as nat);
        vstd::arithmetic::div_mod::lemma_mod_twice(prod, m);
    }
    lemma_first_draw_kept(n, seed, SAMPLE_SIZE as nat);
    let avail = Seq::new(n, |i: int| i as usize);
    let d = draw_below(s0, avail.len() as usize);
    assert(sample_state(n, seed, 0).0 == s0);
    assert(sample_state(n, seed, 1).2[0] == avail[d.1 as int]);
    assert(d.1 as int == step as int % n as int);
}

} // verus!
