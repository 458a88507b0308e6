//! Bisection state over an integer quality grid.
//!
//! A codec's quality axis is kept as a closed integer interval together with
//! a divisor, so that fractional axes (a CRF measured in quarter steps, a
//! bitrate coarsened to hundreds of bits per second) are represented exactly.
//! For a quality axis the stored endpoints are the user values multiplied by
//! the divisor; for a bitrate axis they are the user values divided by it.
//! Each probe reads the midpoint and then discards one half of the interval,
//! so the interval's width at least halves on every step and a search ends
//! after a logarithmic number of probes.

use vstd::prelude::*;

verus! {

/// Magnitude bound on the stored endpoints; far above any real quality or
/// coarsened bitrate value, and small enough that sums cannot overflow `i64`.
pub const ENDPOINT_LIMIT: i64 = 0x1000_0000_0000_0000;

/// Rust's truncating (round toward zero) division by two, as a mathematical
/// function. On non-negative sums it agrees with Euclidean division.
pub open spec fn half_toward_zero(s: int) -> int {
    if s >= 0 {
        s / 2
    } else {
        -((-s) / 2)
    }
}

/// The midpoint the search probes: the truncated mean of the endpoints.
pub open spec fn spec_midpoint(minimum: int, maximum: int) -> int {
    half_toward_zero(minimum + maximum)
}

/// The number of grid points still under consideration.
pub open spec fn spec_width(minimum: int, maximum: int) -> int {
    if maximum >= minimum {
        maximum - minimum + 1
    } else {
        0
    }
}

/// An upper bound on how many successful probes a search of width `w` can
/// still make: one probe plus a budget for the at-most-half-sized remainder.
/// For `w >= 1` this equals `floor(log2(w)) + 1`.
pub open spec fn probe_bound(w: int) -> nat
    decreases w,
{
    if w <= 0 {
        0
    } else {
        1 + probe_bound(w / 2)
    }
}

/// `probe_bound` grows with its argument.
pub proof fn lemma_probe_bound_monotone(w1: int, w2: int)
    requires
        w1 <= w2,
    ensures
        probe_bound(w1) <= probe_bound(w2),
    decreases w2,
{
    if w2 > 0 && w1 > 0 {
        lemma_probe_bound_monotone(w1 / 2, w2 / 2);
    }
}

/// Shrinking an interval to at most half its width spends one unit of the
/// probe budget: the count of probes is logarithmic in the initial width.
pub proof fn lemma_probe_budget_spent(w_old: int, w_new: int)
    requires
        w_old >= 1,
        w_new <= w_old / 2,
    ensures
        probe_bound(w_new) < probe_bound(w_old),
{
    lemma_probe_bound_monotone(w_new, w_old / 2);
}

/// A width below `2^k` is searched in at most `k` probes: the bound promised
/// for a bisection, within one probe of `log2` of the initial width.
pub proof fn lemma_probe_bound_below_pow2(w: int, k: nat)
    requires
        w < vstd::arithmetic::power2::pow2(k),
    ensures
        probe_bound(w) <= k,
    decreases k,
{
    if w <= 0 {
    } else {
        assert(k > 0) by {
            vstd::arithmetic::power2::lemma2_to64();
        };
        vstd::arithmetic::power2::lemma_pow2_unfold(k);
        lemma_probe_bound_below_pow2(w / 2, (k - 1) as nat);
    }
}

/// A lower bound on how many successful probes a search of width `w` still
/// has ahead of it before it can be exhausted: each probe keeps at least
/// `(w - 1) / 2` of `w` grid points, so the count of probes cannot
/// undershoot the logarithm of the initial width by more than one.
pub open spec fn probe_floor(w: int) -> nat
    decreases w,
{
    if w <= 0 {
        0
    } else {
        1 + probe_floor((w - 1) / 2)
    }
}

/// `probe_floor` grows with its argument.
pub proof fn lemma_probe_floor_monotone(w1: int, w2: int)
    requires
        w1 <= w2,
    ensures
        probe_floor(w1) <= probe_floor(w2),
    decreases w2,
{
    if w1 > 0 && w2 > 0 {
        vstd::arithmetic::div_mod::lemma_div_is_ordered(w1 - 1, w2 - 1, 2);
        lemma_probe_floor_monotone((w1 - 1) / 2, (w2 - 1) / 2);
    }
}

/// A probe that keeps at least `(w - 1) / 2` grid points spends at most one
/// unit of the remaining floor.
pub proof fn lemma_probe_floor_spent(w_old: int, w_new: int)
    requires
        w_old >= 1,
        w_new >= (w_old - 1) / 2,
    ensures
        probe_floor(w_new) >= probe_floor(w_old) - 1,
{
    lemma_probe_floor_monotone((w_old - 1) / 2, w_new);
}

/// A width of at least `2^k - 1` cannot be exhausted in fewer than `k`
/// probes.
pub proof fn lemma_probe_floor_pow2(w: int, k: nat)
    requires
        w >= vstd::arithmetic::power2::pow2(k) - 1,
    ensures
        probe_floor(w) >= k,
    decreases k,
{
    if k > 0 {
        vstd::arithmetic::power2::lemma_pow2_unfold(k);
        vstd::arithmetic::power2::lemma_pow2_pos((k - 1) as nat);
        let p = vstd::arithmetic::power2::pow2((k - 1) as nat) as int;
        assert(w >= 2 * p - 1);
        assert(w >= 1);
        assert((w - 1) / 2 >= p - 1) by {
            vstd::arithmetic::div_mod::lemma_div_is_ordered(2 * (p - 1), w - 1, 2);
            vstd::arithmetic::div_mod::lemma_div_multiples_vanish(p - 1, 2);
        };
        lemma_probe_floor_pow2((w - 1) / 2, (k - 1) as nat);
    }
}

/// The floor never exceeds the budget: a search's probe count is bracketed.
pub proof fn lemma_probe_floor_le_bound(w: int)
    ensures
        probe_floor(w) <= probe_bound(w),
    decreases w,
{
    if w > 0 {
        vstd::arithmetic::div_mod::lemma_div_is_ordered(w - 1, w, 2);
        lemma_probe_floor_monotone((w - 1) / 2, w / 2);
        lemma_probe_floor_le_bound(w / 2);
    }
}

/// The number of successful probes a bisection makes from width `w` is
/// logarithmic from both sides, within one probe of `log2(w)` each way:
/// a width below `2^k` supports at most `k` probes (every probe moves
/// `probe_bound` strictly down), and a width of at least `2^k - 1` demands
/// at least `k` (every probe moves `probe_floor` down by at most one, and
/// the search runs exactly until the width is spent).
pub proof fn lemma_probe_count_bracket(w: int, k: nat)
    ensures
        w < vstd::arithmetic::power2::pow2(k) ==> probe_bound(w) <= k,
        w >= vstd::arithmetic::power2::pow2(k) - 1 ==> probe_floor(w) >= k,
        probe_floor(w) <= probe_bound(w),
{
    if w < vstd::arithmetic::power2::pow2(k) {
        lemma_probe_bound_below_pow2(w, k);
    }
    if w >= vstd::arithmetic::power2::pow2(k) - 1 {
        lemma_probe_floor_pow2(w, k);
    }
    lemma_probe_floor_le_bound(w);
}

/// A bisection interval over an integer quality grid.
pub struct QualityRange {
    minimum: i64,
    maximum: i64,
    divisor: i64,
    bitrate: bool,
}

impl QualityRange {
    /// The stored endpoints stay in a range where midpoint arithmetic cannot
    /// overflow and the divisor is usable. Once the interval is exhausted the
    /// low endpoint may sit one step above its bound (and the high endpoint
    /// one step below), which a final shrink of a one-point interval produces.
    pub closed spec fn wf(self) -> bool {
        &&& 1 <= self.divisor
        &&& -ENDPOINT_LIMIT <= self.minimum <= ENDPOINT_LIMIT + 1
        &&& -ENDPOINT_LIMIT - 1 <= self.maximum <= ENDPOINT_LIMIT
    }

    pub closed spec fn spec_minimum(self) -> int {
        self.minimum as int
    }

    pub closed spec fn spec_maximum(self) -> int {
        self.maximum as int
    }

    pub closed spec fn spec_divisor(self) -> int {
        self.divisor as int
    }

    pub closed spec fn spec_bitrate(self) -> bool {
        self.bitrate
    }

    /// Grid points remaining in the interval.
    pub open spec fn width(self) -> int {
        spec_width(self.spec_minimum(), self.spec_maximum())
    }

    /// Whether a probe is still possible.
    pub open spec fn is_active(self) -> bool {
        self.spec_minimum() <= self.spec_maximum()
    }

    /// Builds the interval for user endpoints `minimum ..= maximum`.
    /// On a quality axis the grid is the user range at `1/divisor`
    /// resolution; on a bitrate axis the user range coarsened by `divisor`
    /// (both endpoints rounded toward zero).
    pub fn new(minimum: i64, maximum: i64, divisor: i64, bitrate: bool) -> (r: Self)
        requires
            1 <= divisor <= 1_000_000,
            -1_000_000_000 <= minimum <= 1_000_000_000,
            -1_000_000_000 <= maximum <= 1_000_000_000,
        ensures
            r.wf(),
            r.spec_divisor() == divisor,
            r.spec_bitrate() == bitrate,
            bitrate ==> r.spec_minimum() == half_div(minimum as int, divisor as int)
                && r.spec_maximum() == half_div(maximum as int, divisor as int),
            !bitrate ==> r.spec_minimum() == minimum * divisor && r.spec_maximum() == maximum
                * divisor,
    {
        if bitrate {
            Self { minimum: div_trunc(minimum, divisor), maximum: div_trunc(
                maximum,
                divisor,
            ), divisor, bitrate }
        } else {
            proof {
                lemma_product_bounded(minimum as int, divisor as int);
                lemma_product_bounded(maximum as int, divisor as int);
            }
            Self { minimum: minimum * divisor, maximum: maximum * divisor, divisor, bitrate }
        }
    }

    /// The grid midpoint between the endpoints, truncated toward zero.
    pub fn midpoint(&self) -> (r: i64)
        requires
            self.wf(),
        ensures
            r as int == spec_midpoint(self.spec_minimum(), self.spec_maximum()),
            self.is_active() ==> self.spec_minimum() <= r as int <= self.spec_maximum(),
    {
        proof {
            if self.is_active() {
                lemma_midpoint_between(self.minimum as int, self.maximum as int);
            }
        }
        let s: i64 = self.minimum + self.maximum;
        if s >= 0 {
            s / 2
        } else {
            -((-s) / 2)
        }
    }

    /// The next grid value to probe, or `None` once the search is exhausted.
    /// The value is on the stored grid; the user-unit value is this divided
    /// by the divisor (quality axes) or multiplied by it (bitrate axes).
    pub fn current(&self) -> (r: Option<i64>)
        requires
            self.wf(),
        ensures
            self.is_active() ==> r == Some(
                spec_midpoint(self.spec_minimum(), self.spec_maximum()) as i64,
            ),
            !self.is_active() ==> r is None,
    {
        if self.minimum > self.maximum {
            None
        } else {
            Some(self.midpoint())
        }
    }

    /// Discards the upper half of the interval, midpoint included.
    /// On an active interval this at least halves the width.
    pub fn lower(&mut self)
        requires
            old(self).wf(),
            old(self).is_active(),
        ensures
            final(self).wf(),
            final(self).spec_minimum() == old(self).spec_minimum(),
            final(self).spec_maximum() == spec_midpoint(
                old(self).spec_minimum(),
                old(self).spec_maximum(),
            ) - 1,
            final(self).spec_divisor() == old(self).spec_divisor(),
            final(self).spec_bitrate() == old(self).spec_bitrate(),
            final(self).width() <= old(self).width() / 2,
            final(self).width() >= (old(self).width() - 1) / 2,
            final(self).width() < old(self).width(),
    {
        proof {
            lemma_midpoint_between(self.minimum as int, self.maximum as int);
        }
        let mid = self.midpoint();
        self.maximum = mid - 1;
    }

    /// Discards the lower half of the interval, midpoint included.
    /// On an active interval this at least halves the width.
    pub fn higher(&mut self)
        requires
            old(self).wf(),
            old(self).is_active(),
        ensures
            final(self).wf(),
            final(self).spec_maximum() == old(self).spec_maximum(),
            final(self).spec_minimum() == spec_midpoint(
                old(self).spec_minimum(),
                old(self).spec_maximum(),
            ) + 1,
            final(self).spec_divisor() == old(self).spec_divisor(),
            final(self).spec_bitrate() == old(self).spec_bitrate(),
            final(self).width() <= old(self).width() / 2,
            final(self).width() >= (old(self).width() - 1) / 2,
            final(self).width() < old(self).width(),
    {
        proof {
            lemma_midpoint_between(self.minimum as int, self.maximum as int);
        }
        let mid = self.midpoint();
        self.minimum = mid + 1;
    }

    /// Whether values on this axis are whole numbers in user units; governs
    /// how a probed value is rendered.
    pub fn integer(&self) -> (r: bool)
        ensures
            r == (self.spec_bitrate() || self.spec_divisor() == 1),
    {
        self.bitrate || self.divisor == 1
    }

    /// The low endpoint, on the stored grid.
    pub fn minimum(&self) -> (r: i64)
        ensures
            r as int == self.spec_minimum(),
    {
        self.minimum
    }

    /// The high endpoint, on the stored grid.
    pub fn maximum(&self) -> (r: i64)
        ensures
            r as int == self.spec_maximum(),
    {
        self.maximum
    }

    /// The grid resolution.
    pub fn divisor(&self) -> (r: i64)
        ensures
            r as int == self.spec_divisor(),
    {
        self.divisor
    }

    /// Whether this is a bitrate axis.
    pub fn is_bitrate(&self) -> (r: bool)
        ensures
            r == self.spec_bitrate(),
    {
        self.bitrate
    }
}

/// The product of a user endpoint and a divisor stays far within `i64`.
proof fn lemma_product_bounded(a: int, d: int) by (nonlinear_arith)
    requires
        -1_000_000_000 <= a <= 1_000_000_000,
        1 <= d <= 1_000_000,
    ensures
        -0x1000_0000_0000_0000 <= a * d <= 0x1000_0000_0000_0000,
{
}

/// Rust's truncating division, as a mathematical function.
pub open spec fn half_div(a: int, d: int) -> int {
    if a >= 0 {
        a / d
    } else {
        -((-a) / d)
    }
}

/// Truncating division on machine integers, matching `half_div`.
pub fn div_trunc(a: i64, d: i64) -> (r: i64)
    requires
        1 <= d,
        -1_000_000_000_000 <= a <= 1_000_000_000_000,
    ensures
        r as int == half_div(a as int, d as int),
        -1_000_000_000_000 <= r <= 1_000_000_000_000,
{
    if a >= 0 {
        proof {
            vstd::arithmetic::div_mod::lemma_div_nonincreasing(a as int, d as int);
            vstd::arithmetic::div_mod::lemma_div_pos_is_pos(a as int, d as int);
        }
        a / d
    } else {
        proof {
            vstd::arithmetic::div_mod::lemma_div_nonincreasing(-(a as int), d as int);
            vstd::arithmetic::div_mod::lemma_div_pos_is_pos(-(a as int), d as int);
        }
        -((-a) / d)
    }
}

/// On an active interval the truncated midpoint lies between the endpoints.
proof fn lemma_midpoint_between(minimum: int, maximum: int)
    requires
        minimum <= maximum,
    ensures
        minimum <= spec_midpoint(minimum, maximum) <= maximum,
        spec_midpoint(minimum, maximum) - minimum <= spec_width(minimum, maximum) / 2,
        maximum - spec_midpoint(minimum, maximum) <= spec_width(minimum, maximum) / 2,
        spec_midpoint(minimum, maximum) - minimum >= (spec_width(minimum, maximum) - 1) / 2,
        maximum - spec_midpoint(minimum, maximum) >= (spec_width(minimum, maximum) - 1) / 2,
{
    let s = minimum + maximum;
    if s >= 0 {
        assert(2 * (s / 2) <= s < 2 * (s / 2) + 2) by {
            vstd::arithmetic::div_mod::lemma_fundamental_div_mod(s, 2);
        };
    } else {
        assert(2 * ((-s) / 2) <= -s < 2 * ((-s) / 2) + 2) by {
            vstd::arithmetic::div_mod::lemma_fundamental_div_mod(-s, 2);
        };
    }
    let w = spec_width(minimum, maximum);
    assert(2 * (w / 2) <= w < 2 * (w / 2) + 2) by {
        vstd::arithmetic::div_mod::lemma_fundamental_div_mod(w, 2);
    };
    assert(2 * ((w - 1) / 2) <= w - 1 < 2 * ((w - 1) / 2) + 2) by {
        vstd::arithmetic::div_mod::lemma_fundamental_div_mod(w - 1, 2);
    };
}

} // verus!
