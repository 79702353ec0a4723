//! Loudness meter for live audio: root-mean-square level over each window,
//! scaled, clamped, noise-gated and exponentially smoothed, for display.
//!
//! Levels are fixed-point: `LEVEL_SCALE` stands for full loudness (1.0).
use vstd::prelude::*;
use vstd::arithmetic::div_mod::{lemma_div_is_ordered, lemma_fundamental_div_mod};

verus! {

/// Fixed-point value of a full-scale level.
pub const LEVEL_SCALE: u32 = 10000;

/// Levels below this (0.02 of full scale) are shown as silence.
pub const NOISE_GATE: u32 = 200;

/// Minimum time between two emitted levels, about 30 per second.
pub const THROTTLE_MS: u64 = 33;

/// Magnitude of a full-scale 16-bit sample.
pub const FULL_SCALE: u32 = 32767;

/// Weight, in percent, of the newest level in the smoothed one.
pub const SMOOTHING_PCT: u32 = 35;

/// The largest `r <= k` with `r * r <= q`.
pub open spec fn isqrt_below(q: nat, k: nat) -> nat
    decreases k,
{
    if k * k <= q || k == 0 {
        k
    } else {
        isqrt_below(q, (k - 1) as nat)
    }
}

/// The level of a window with the given sum of squared samples and sample
/// count: `min(1, 1.5 * rms)` in fixed point, rounded down. With `rms =
/// sqrt(sum / count) / FULL_SCALE`, this is the integer square root of
/// `(1.5 * LEVEL_SCALE)^2 * sum / (count * FULL_SCALE^2)`, capped.
pub open spec fn window_level(sum: nat, count: nat) -> nat {
    isqrt_below(
        (9 * LEVEL_SCALE * LEVEL_SCALE * sum / (4 * FULL_SCALE * FULL_SCALE * count) as int) as nat,
        LEVEL_SCALE as nat,
    )
}

/// The noise gate: quiet levels become silence.
pub open spec fn gated(level: nat) -> nat {
    if level < NOISE_GATE {
        0
    } else {
        level
    }
}

/// Exponential smoothing of `level` into `prev`.
pub open spec fn smoothed(level: nat, prev: nat) -> nat {
    ((SMOOTHING_PCT * level + (100 - SMOOTHING_PCT) * prev) / 100) as nat
}

pub struct LevelMeterView {
    pub sum_squares: nat,
    pub count: nat,
    pub smoothed: nat,
}

/// What a tick emits for the meter in state `v`: the new smoothed level, or
/// zero when the window holds no sample.
pub open spec fn tick_level(v: LevelMeterView) -> nat {
    if v.count > 0 {
        smoothed(gated(window_level(v.sum_squares, v.count)), v.smoothed)
    } else {
        0
    }
}

/// The meter's state after a tick: an empty window, and the new smoothed
/// level when the window held samples.
pub open spec fn after_tick(v: LevelMeterView) -> LevelMeterView {
    LevelMeterView {
        sum_squares: 0,
        count: 0,
        smoothed: if v.count > 0 {
            tick_level(v)
        } else {
            v.smoothed
        },
    }
}

/// Sum of the squared samples.
pub open spec fn sum_squares(s: Seq<i16>) -> nat
    decreases s.len(),
{
    if s.len() == 0 {
        0
    } else {
        sum_squares(s.drop_last()) + (s.last() * s.last()) as nat
    }
}

/// Streaming loudness estimator: accumulates squared samples over a window
/// and turns the window into a smoothed level on each tick.
pub struct LevelMeter {
    acc_sum_squares: u128,
    acc_count: u64,
    ema_level: u32,
}

impl View for LevelMeter {
    type V = LevelMeterView;

    closed spec fn view(&self) -> LevelMeterView {
        LevelMeterView {
            sum_squares: self.acc_sum_squares as nat,
            count: self.acc_count as nat,
            smoothed: self.ema_level as nat,
        }
    }
}

proof fn lemma_isqrt_below_is(q: nat, k: nat, r: nat)
    requires
        r <= k,
        r * r <= q,
        r == k || (r + 1) * (r + 1) > q,
    ensures
        isqrt_below(q, k) == r,
    decreases k,
{
    if k > r {
        assert(k * k >= (r + 1) * (r + 1)) by (nonlinear_arith)
            requires
                k >= r + 1,
        ;
        lemma_isqrt_below_is(q, (k - 1) as nat, r);
    }
}

/// The level is the largest `r <= k` whose square does not exceed `q`.
pub proof fn lemma_isqrt_below_bounds(q: nat, k: nat)
    ensures
        isqrt_below(q, k) <= k,
        isqrt_below(q, k) * isqrt_below(q, k) <= q,
    decreases k,
{
    if k > 0 && k * k > q {
        lemma_isqrt_below_bounds(q, (k - 1) as nat);
    } else if k == 0 {
        assert(k * k == 0);
    }
}

/// Largest `r <= cap` with `r * r <= q`, by binary search.
fn isqrt_capped(q: u128, cap: u128) -> (r: u128)
    requires
        cap <= 0xffff_ffff,
    ensures
        r == isqrt_below(q as nat, cap as nat),
{
    let mut lo: u128 = 0;
    let mut hi: u128 = cap;
    while lo < hi
        invariant
            lo <= hi <= cap,
            cap <= 0xffff_ffff,
            lo * lo <= q,
            hi == cap || (hi + 1) * (hi + 1) > q,
        decreases hi - lo,
    {
        let mid = lo + (hi - lo + 1) / 2;
        assert(mid * mid <= 0xffff_ffff * 0xffff_ffffu128) by (nonlinear_arith)
            requires
                mid <= 0xffff_ffff,
        ;
        if mid * mid <= q {
            lo = mid;
        } else {
            hi = mid - 1;
        }
    }
    proof {
        lemma_isqrt_below_is(q as nat, cap as nat, lo as nat);
    }
    lo
}

impl LevelMeter {
    /// The meter's invariant: the smoothed level is at most full scale, and
    /// the window's sum fits what its samples can add up to.
    pub open spec fn wf(&self) -> bool {
        &&& self@.smoothed <= LEVEL_SCALE
        &&& self@.sum_squares <= self@.count * 0x4000_0000
    }

    /// A silent meter with an empty window.
    pub fn new() -> (m: Self)
        ensures
            m.wf(),
            m@ == (LevelMeterView { sum_squares: 0, count: 0, smoothed: 0 }),
    {
        LevelMeter { acc_sum_squares: 0, acc_count: 0, ema_level: 0 }
    }

    /// Number of samples in the current window.
    pub fn window_count(&self) -> (r: u64)
        ensures
            r == self@.count,
    {
        self.acc_count
    }

    /// Adds mono samples to the current window.
    pub fn accumulate(&mut self, samples: &Vec<i16>)
        requires
            old(self).wf(),
            old(self)@.count + samples.len() <= u64::MAX,
        ensures
            final(self).wf(),
            final(self)@ == (LevelMeterView {
                sum_squares: old(self)@.sum_squares + sum_squares(samples@),
                count: (old(self)@.count + samples.len()) as nat,
                smoothed: old(self)@.smoothed,
            }),
    {
        let mut i: usize = 0;
        while i < samples.len()
            invariant
                i <= samples.len(),
                self.wf(),
                self@.count == old(self)@.count + i,
                self@.sum_squares == old(self)@.sum_squares + sum_squares(samples@.take(i as int)),
                self@.smoothed == old(self)@.smoothed,
                old(self)@.count + samples.len() <= u64::MAX,
            decreases samples.len() - i,
        {
            let s = samples[i] as i64;
            assert(0 <= s * s <= 0x4000_0000) by (nonlinear_arith)
                requires
                    -32768 <= s <= 32767,
            ;
            let sq = (s * s) as u128;
            assert(self.acc_sum_squares + sq <= (self.acc_count + 1) * 0x4000_0000);
            assert((self.acc_count + 1) * 0x4000_0000 <= 0x1_0000_0000_0000_0000 * 0x4000_0000);
            self.acc_sum_squares = self.acc_sum_squares + sq;
            self.acc_count = self.acc_count + 1;
            assert(samples@.take(i + 1).drop_last() =~= samples@.take(i as int));
            i = i + 1;
        }
        assert(samples@.take(samples.len() as int) =~= samples@);
    }

    /// Ends the current window: returns the new smoothed level and starts an
    /// empty window. An empty window emits zero and leaves the smoothed level
    /// as it was.
    pub fn tick(&mut self) -> (r: u32)
        requires
            old(self).wf(),
        ensures
            final(self).wf(),
            r == tick_level(old(self)@),
            r <= LEVEL_SCALE,
            final(self)@ == after_tick(old(self)@),
    {
        if self.acc_count == 0 {
            self.acc_sum_squares = 0;
            return 0;
        }
        let sum = self.acc_sum_squares;
        let count = self.acc_count as u128;
        let scale = LEVEL_SCALE as u128;
        let full = FULL_SCALE as u128;
        assert(9 * scale * scale * sum <= 900_000_000 * (0x1_0000_0000_0000_0000 * 0x4000_0000))
            by (nonlinear_arith)
            requires
                sum <= count * 0x4000_0000,
                count <= 0xffff_ffff_ffff_ffff,
                scale == 10000,
        ;
        assert(4 * full * full * count <= 4 * 32767 * 32767 * 0xffff_ffff_ffff_ffffu128) by (nonlinear_arith)
            requires
                count <= 0xffff_ffff_ffff_ffff,
                full == 32767,
        ;
        assert(4 * full * full * count > 0) by (nonlinear_arith)
            requires
                count > 0,
                full == 32767,
        ;
        let q = (9 * scale * scale * sum) / (4 * full * full * count);
        let raw = isqrt_capped(q, scale);
        proof {
            lemma_isqrt_below_bounds(q as nat, scale as nat);
        }
        let level: u32 = if raw < NOISE_GATE as u128 {
            0
        } else {
            raw as u32
        };
        assert(self.ema_level <= LEVEL_SCALE);
        assert(level <= LEVEL_SCALE);
        let prev = self.ema_level;
        assert(SMOOTHING_PCT * level + (100 - SMOOTHING_PCT) * prev <= 100 * LEVEL_SCALE)
            by (nonlinear_arith)
            requires
                level <= LEVEL_SCALE,
                prev <= LEVEL_SCALE,
        ;
        let ema = (SMOOTHING_PCT * level + (100 - SMOOTHING_PCT) * prev) / 100;
        self.ema_level = ema;
        self.acc_sum_squares = 0;
        self.acc_count = 0;
        ema
    }

    /// Decides, on each audio callback, whether a level is due: once
    /// `elapsed_ms` since the last emission reaches the throttle interval,
    /// the window is closed and its level returned.
    pub fn on_callback(&mut self, elapsed_ms: u64) -> (r: Option<u32>)
        requires
            old(self).wf(),
        ensures
            final(self).wf(),
            elapsed_ms < THROTTLE_MS ==> r is None && final(self)@ == old(self)@,
            elapsed_ms >= THROTTLE_MS ==> r == Some(tick_level(old(self)@) as u32),
            elapsed_ms >= THROTTLE_MS ==> final(self)@ == after_tick(old(self)@),
            r matches Some(l) ==> l <= LEVEL_SCALE,
    {
        if elapsed_ms >= THROTTLE_MS {
            Some(self.tick())
        } else {
            None
        }
    }
}

/// Every emitted level lies between silence and full scale.
pub proof fn lemma_level_bounded(v: LevelMeterView)
    requires
        v.smoothed <= LEVEL_SCALE,
    ensures
        0 <= tick_level(v) <= LEVEL_SCALE,
{
    if v.count > 0 {
        lemma_isqrt_below_bounds(
            (9 * LEVEL_SCALE * LEVEL_SCALE * v.sum_squares / (4 * FULL_SCALE * FULL_SCALE
                * v.count) as int) as nat,
            LEVEL_SCALE as nat,
        );
    }
}

/// The noise gate: a window whose `1.5 * rms` is below 0.02 contributes
/// silence, so the emitted level only decays the previous one, and is zero
/// when the previous level was zero.
pub proof fn lemma_noise_gate(v: LevelMeterView)
    requires
        v.count > 0,
        9 * LEVEL_SCALE * LEVEL_SCALE * v.sum_squares < 4 * FULL_SCALE * FULL_SCALE * v.count
            * NOISE_GATE * NOISE_GATE,
    ensures
        gated(window_level(v.sum_squares, v.count)) == 0,
        tick_level(v) == smoothed(0, v.smoothed),
        v.smoothed == 0 ==> tick_level(v) == 0,
{
    let num = 9 * LEVEL_SCALE * LEVEL_SCALE * v.sum_squares;
    let den = 4 * FULL_SCALE * FULL_SCALE * v.count;
    let q = num / den as int;
    assert(den > 0) by (nonlinear_arith)
        requires
            den == 4 * FULL_SCALE * FULL_SCALE * v.count,
            v.count > 0,
    ;
    lemma_fundamental_div_mod(num as int, den as int);
    assert(q < NOISE_GATE * NOISE_GATE) by (nonlinear_arith)
        requires
            num < den * NOISE_GATE * NOISE_GATE,
            num == den * q + num % den as int,
            num % den as int >= 0,
            den > 0,
    ;
    lemma_div_is_ordered(0, num as int, den as int);
    let r = window_level(v.sum_squares, v.count);
    lemma_isqrt_below_bounds(q as nat, LEVEL_SCALE as nat);
    assert(r < NOISE_GATE) by (nonlinear_arith)
        requires
            r * r <= q,
            q < NOISE_GATE * NOISE_GATE,
    ;
}

} // verus!
