//! Exact decimal numbers, held as a plain mantissa and scale.
//!
//! The animation's `factor` and `factor_increment` must not drift when 0.01
//! is applied thousands of times, so they are kept as `mantissa / 10^scale`
//! with both parts ordinary integers.  Every operation here is exact: adding
//! aligns the two scales, scaling by ten moves the scale or the mantissa, and
//! scaling by a tenth is a no-op at the precision floor rather than a rounding
//! step, so that the increment can never silently collapse to zero.

use vstd::prelude::*;

verus! {

/// Greatest number of digits allowed to the right of the decimal point.
pub const MAX_SCALE: u32 = 18;

/// Greatest magnitude a mantissa may take (ten to the nineteenth).
pub const MANTISSA_LIMIT: i128 = 10_000_000_000_000_000_000;

/// Ten raised to `e`.
pub open spec fn pow10(e: nat) -> int
    decreases e,
{
    if e == 0 {
        1
    } else {
        10 * pow10((e - 1) as nat)
    }
}

pub proof fn lemma_pow10_pos(e: nat)
    ensures
        pow10(e) >= 1,
    decreases e,
{
    if e > 0 {
        lemma_pow10_pos((e - 1) as nat);
    }
}

pub proof fn lemma_pow10_adds(a: nat, b: nat)
    ensures
        pow10(a + b) == pow10(a) * pow10(b),
    decreases a,
{
    if a == 0 {
    } else {
        lemma_pow10_adds((a - 1) as nat, b);
        assert(pow10(a + b) == 10 * pow10((a - 1) as nat + b));
        assert(10 * (pow10((a - 1) as nat) * pow10(b)) == (10 * pow10((a - 1) as nat)) * pow10(b))
            by (nonlinear_arith);
    }
}

pub proof fn lemma_pow10_increases(a: nat, b: nat)
    requires
        a <= b,
    ensures
        pow10(a) <= pow10(b),
{
    lemma_pow10_adds(a, (b - a) as nat);
    lemma_pow10_pos(a);
    lemma_pow10_pos((b - a) as nat);
    assert(pow10(a) * pow10((b - a) as nat) >= pow10(a) * 1) by (nonlinear_arith)
        requires
            pow10(a) >= 1,
            pow10((b - a) as nat) >= 1;
}

/// Within the supported scales, a power of ten is at most ten to the
/// eighteenth, so aligned products stay far inside `i128`.
pub proof fn lemma_pow10_bound(e: nat)
    requires
        e <= MAX_SCALE,
    ensures
        1 <= pow10(e) <= 1_000_000_000_000_000_000,
{
    assert(pow10(18) == 1_000_000_000_000_000_000) by {
        reveal_with_fuel(pow10, 19);
    }
    lemma_pow10_pos(e);
    lemma_pow10_increases(e, 18);
}

/// A decimal number `mantissa / 10^scale`, held exactly as two plain integers.
#[derive(Clone, Copy, PartialEq, Eq, Structural, Debug)]
pub struct FixedDecimal {
    pub mantissa: i128,
    pub scale: u32,
}

impl FixedDecimal {
    /// The representation the library maintains: a bounded mantissa and a
    /// scale within the supported number of fractional digits.
    pub open spec fn wf(self) -> bool {
        &&& self.scale <= MAX_SCALE
        &&& -MANTISSA_LIMIT <= self.mantissa <= MANTISSA_LIMIT
    }

    /// The value of the decimal as an integer, scaled up by `10^MAX_SCALE`.
    /// Two decimals denote the same number exactly when their `rep`s agree.
    pub open spec fn rep(self) -> int {
        self.mantissa * pow10((MAX_SCALE - self.scale) as nat)
    }

    /// The larger of the two scales, used to align additions.
    pub open spec fn spec_scale_join(self, other: FixedDecimal) -> u32 {
        if self.scale >= other.scale {
            self.scale
        } else {
            other.scale
        }
    }

    /// Both mantissas brought to the joined scale and added.
    pub open spec fn spec_aligned_sum(self, other: FixedDecimal) -> int {
        let s = self.spec_scale_join(other);
        self.mantissa * pow10((s - self.scale) as nat) + other.mantissa * pow10(
            (s - other.scale) as nat,
        )
    }

    /// Both mantissas brought to the joined scale and subtracted.
    pub open spec fn spec_aligned_diff(self, other: FixedDecimal) -> int {
        let s = self.spec_scale_join(other);
        self.mantissa * pow10((s - self.scale) as nat) - other.mantissa * pow10(
            (s - other.scale) as nat,
        )
    }

    /// The sum stays within the mantissa bound, so `plus` is exact.
    pub open spec fn can_plus(self, other: FixedDecimal) -> bool {
        -MANTISSA_LIMIT <= self.spec_aligned_sum(other) <= MANTISSA_LIMIT
    }

    /// The difference stays within the mantissa bound, so `minus` is exact.
    pub open spec fn can_minus(self, other: FixedDecimal) -> bool {
        -MANTISSA_LIMIT <= self.spec_aligned_diff(other) <= MANTISSA_LIMIT
    }

    pub open spec fn spec_plus(self, other: FixedDecimal) -> FixedDecimal {
        FixedDecimal {
            mantissa: self.spec_aligned_sum(other) as i128,
            scale: self.spec_scale_join(other),
        }
    }

    pub open spec fn spec_minus(self, other: FixedDecimal) -> FixedDecimal {
        FixedDecimal {
            mantissa: self.spec_aligned_diff(other) as i128,
            scale: self.spec_scale_join(other),
        }
    }

    /// Ten times the value fits, either by lowering the scale or within the
    /// mantissa bound.
    pub open spec fn can_times_ten(self) -> bool {
        self.scale > 0 || -MANTISSA_LIMIT <= 10 * self.mantissa <= MANTISSA_LIMIT
    }

    pub open spec fn spec_times_ten(self) -> FixedDecimal {
        if self.scale > 0 {
            FixedDecimal { mantissa: self.mantissa, scale: (self.scale - 1) as u32 }
        } else {
            FixedDecimal { mantissa: (10 * self.mantissa) as i128, scale: self.scale }
        }
    }

    /// A tenth of the value.  Exact whenever the mantissa divides by ten or a
    /// further fractional digit is available; at the precision floor the value
    /// is left unchanged instead of being rounded, so it can never reach zero.
    pub open spec fn spec_tenth(self) -> FixedDecimal {
        if self.mantissa % 10 == 0 {
            FixedDecimal { mantissa: (self.mantissa / 10) as i128, scale: self.scale }
        } else if self.scale < MAX_SCALE {
            FixedDecimal { mantissa: self.mantissa, scale: (self.scale + 1) as u32 }
        } else {
            self
        }
    }

    /// The scale cannot shrink further (scale 0) or the mantissa keeps a digit
    /// that division by ten would lose.  On such decimals, times-ten and tenth
    /// invert each other representation-for-representation.
    pub open spec fn normalized(self) -> bool {
        self.scale == 0 || self.mantissa % 10 != 0
    }

    pub fn new(mantissa: i128, scale: u32) -> (r: FixedDecimal)
        requires
            -MANTISSA_LIMIT <= mantissa <= MANTISSA_LIMIT,
            scale <= MAX_SCALE,
        ensures
            r == (FixedDecimal { mantissa, scale }),
            r.wf(),
    {
        FixedDecimal { mantissa, scale }
    }

    pub fn plus(self, other: FixedDecimal) -> (r: FixedDecimal)
        requires
            self.wf(),
            other.wf(),
            self.can_plus(other),
        ensures
            r == self.spec_plus(other),
            r.wf(),
            r.rep() == self.rep() + other.rep(),
    {
        proof {
            lemma_aligned_reps(self, other);
        }
        let s = if self.scale >= other.scale {
            self.scale
        } else {
            other.scale
        };
        let pa = pow10_exec(s - self.scale);
        let pb = pow10_exec(s - other.scale);
        proof {
            lemma_pow10_bound((s - self.scale) as nat);
            lemma_pow10_bound((s - other.scale) as nat);
            lemma_mantissa_product_bound(self.mantissa, pa);
            lemma_mantissa_product_bound(other.mantissa, pb);
        }
        let a = self.mantissa * pa;
        let b = other.mantissa * pb;
        FixedDecimal { mantissa: a + b, scale: s }
    }

    pub fn minus(self, other: FixedDecimal) -> (r: FixedDecimal)
        requires
            self.wf(),
            other.wf(),
            self.can_minus(other),
        ensures
            r == self.spec_minus(other),
            r.wf(),
            r.rep() == self.rep() - other.rep(),
    {
        proof {
            lemma_aligned_reps(self, other);
        }
        let s = if self.scale >= other.scale {
            self.scale
        } else {
            other.scale
        };
        let pa = pow10_exec(s - self.scale);
        let pb = pow10_exec(s - other.scale);
        proof {
            lemma_pow10_bound((s - self.scale) as nat);
            lemma_pow10_bound((s - other.scale) as nat);
            lemma_mantissa_product_bound(self.mantissa, pa);
            lemma_mantissa_product_bound(other.mantissa, pb);
        }
        let a = self.mantissa * pa;
        let b = other.mantissa * pb;
        FixedDecimal { mantissa: a - b, scale: s }
    }

    pub fn times_ten(self) -> (r: FixedDecimal)
        requires
            self.wf(),
            self.can_times_ten(),
        ensures
            r == self.spec_times_ten(),
            r.wf(),
            r.rep() == 10 * self.rep(),
    {
        proof {
            lemma_times_ten_rep(self);
        }
        if self.scale > 0 {
            FixedDecimal { mantissa: self.mantissa, scale: self.scale - 1 }
        } else {
            FixedDecimal { mantissa: 10 * self.mantissa, scale: self.scale }
        }
    }

    pub fn tenth(self) -> (r: FixedDecimal)
        requires
            self.wf(),
        ensures
            r == self.spec_tenth(),
            r.wf(),
            self.mantissa % 10 == 0 || self.scale < MAX_SCALE ==> 10 * r.rep() == self.rep(),
            !(self.mantissa % 10 == 0 || self.scale < MAX_SCALE) ==> r == self,
    {
        proof {
            lemma_tenth_rep(self);
        }
        if self.mantissa >= 0 {
            let mag = self.mantissa as u128;
            if mag % 10 == 0 {
                FixedDecimal { mantissa: (mag / 10) as i128, scale: self.scale }
            } else if self.scale < MAX_SCALE {
                FixedDecimal { mantissa: self.mantissa, scale: self.scale + 1 }
            } else {
                self
            }
        } else {
            let mag = (-self.mantissa) as u128;
            proof {
                lemma_neg_divides_ten(self.mantissa as int);
            }
            if mag % 10 == 0 {
                FixedDecimal { mantissa: -((mag / 10) as i128), scale: self.scale }
            } else if self.scale < MAX_SCALE {
                FixedDecimal { mantissa: self.mantissa, scale: self.scale + 1 }
            } else {
                self
            }
        }
    }
}

/// `|m * p| <= MANTISSA_LIMIT * 10^MAX_SCALE` for a bounded mantissa and a
/// bounded power of ten; keeps the aligned products inside `i128`.
pub proof fn lemma_mantissa_product_bound(m: i128, p: i128) by (nonlinear_arith)
    requires
        -MANTISSA_LIMIT <= m <= MANTISSA_LIMIT,
        1 <= p <= 1_000_000_000_000_000_000,
    ensures
        -10_000_000_000_000_000_000_000_000_000_000_000_000 <= m * p
            <= 10_000_000_000_000_000_000_000_000_000_000_000_000,
{
}

/// Each aligned product, multiplied back out to the common `rep` scale, equals
/// the original `rep`; so the aligned sum and difference carry the values.
proof fn lemma_aligned_reps(a: FixedDecimal, b: FixedDecimal)
    requires
        a.wf(),
        b.wf(),
    ensures
        a.spec_aligned_sum(b) * pow10((MAX_SCALE - a.spec_scale_join(b)) as nat) == a.rep()
            + b.rep(),
        a.spec_aligned_diff(b) * pow10((MAX_SCALE - a.spec_scale_join(b)) as nat) == a.rep()
            - b.rep(),
{
    let s = a.spec_scale_join(b);
    let outer = pow10((MAX_SCALE - s) as nat);
    let pa = pow10((s - a.scale) as nat);
    let pb = pow10((s - b.scale) as nat);
    lemma_pow10_adds((s - a.scale) as nat, (MAX_SCALE - s) as nat);
    lemma_pow10_adds((s - b.scale) as nat, (MAX_SCALE - s) as nat);
    assert(pa * outer == pow10((MAX_SCALE - a.scale) as nat));
    assert(pb * outer == pow10((MAX_SCALE - b.scale) as nat));
    assert((a.mantissa * pa + b.mantissa * pb) * outer == a.mantissa * (pa * outer) + b.mantissa * (
    pb * outer)) by (nonlinear_arith);
    assert((a.mantissa * pa - b.mantissa * pb) * outer == a.mantissa * (pa * outer) - b.mantissa * (
    pb * outer)) by (nonlinear_arith);
}

/// Scaling up multiplies the `rep` by ten, whichever branch is taken.
proof fn lemma_times_ten_rep(d: FixedDecimal)
    requires
        d.wf(),
        d.can_times_ten(),
    ensures
        d.spec_times_ten().wf(),
        d.spec_times_ten().rep() == 10 * d.rep(),
{
    if d.scale > 0 {
        let e = (MAX_SCALE - d.scale) as nat;
        assert(pow10(e + 1) == 10 * pow10(e));
        assert(d.mantissa * (10 * pow10(e)) == 10 * (d.mantissa * pow10(e))) by (nonlinear_arith);
    } else {
        let e = MAX_SCALE as nat;
        assert((10 * d.mantissa) * pow10(e) == 10 * (d.mantissa * pow10(e))) by (nonlinear_arith);
    }
}

/// A mantissa divides by ten exactly when its negation does, and the exact
/// quotients are negations of one another.
proof fn lemma_neg_divides_ten(m: int)
    ensures
        ((-m) % 10 == 0) == (m % 10 == 0),
        m % 10 == 0 ==> -((-m) / 10) == m / 10 && m == 10 * (m / 10),
{
    if m % 10 == 0 {
        let k = m / 10;
        vstd::arithmetic::div_mod::lemma_fundamental_div_mod(m, 10);
        assert(m == 10 * k);
        assert((-k) * 10 == -m) by (nonlinear_arith)
            requires
                m == 10 * k;
        vstd::arithmetic::div_mod::lemma_mod_multiples_basic(-k, 10);
        vstd::arithmetic::div_mod::lemma_div_multiples_vanish(-k, 10);
        assert(-m == 10 * (-k));
        assert((-m) / 10 == -k);
    }
    if (-m) % 10 == 0 {
        let k = (-m) / 10;
        vstd::arithmetic::div_mod::lemma_fundamental_div_mod(-m, 10);
        assert(-m == 10 * k);
        assert((-k) * 10 == m) by (nonlinear_arith)
            requires
                -m == 10 * k;
        vstd::arithmetic::div_mod::lemma_mod_multiples_basic(-k, 10);
        assert(m % 10 == 0);
    }
}

/// Scaling down divides the `rep` by ten exactly, except at the precision
/// floor, where the value is left unchanged.
proof fn lemma_tenth_rep(d: FixedDecimal)
    requires
        d.wf(),
    ensures
        d.spec_tenth().wf(),
        d.mantissa % 10 == 0 || d.scale < MAX_SCALE ==> 10 * d.spec_tenth().rep() == d.rep(),
        !(d.mantissa % 10 == 0 || d.scale < MAX_SCALE) ==> d.spec_tenth() == d,
{
    let e = (MAX_SCALE - d.scale) as nat;
    if d.mantissa % 10 == 0 {
        lemma_neg_divides_ten(d.mantissa as int);
        let k = d.mantissa as int / 10;
        assert(10 * (k * pow10(e)) == (10 * k) * pow10(e)) by (nonlinear_arith);
    } else if d.scale < MAX_SCALE {
        assert(pow10(e) == 10 * pow10((e - 1) as nat));
        assert(d.mantissa * (10 * pow10((e - 1) as nat)) == 10 * (d.mantissa * pow10(
            (e - 1) as nat,
        ))) by (nonlinear_arith);
    }
}

/// Law: on a normalized decimal that can scale up, multiplying by ten and then
/// taking a tenth restores the decimal bit for bit, not merely its value.
pub proof fn lemma_scale_round_trip(d: FixedDecimal)
    requires
        d.wf(),
        d.can_times_ten(),
        d.normalized(),
    ensures
        d.spec_times_ten().spec_tenth() == d,
{
    if d.scale == 0 {
        let up = d.spec_times_ten();
        assert(up.mantissa == 10 * d.mantissa);
        assert(d.mantissa * 10 == 10 * d.mantissa) by (nonlinear_arith);
        vstd::arithmetic::div_mod::lemma_mod_multiples_basic(d.mantissa as int, 10);
        vstd::arithmetic::div_mod::lemma_div_multiples_vanish(d.mantissa as int, 10);
        assert(up.mantissa % 10 == 0);
        assert(up.mantissa / 10 == d.mantissa);
    }
}

/// Law: both scalings keep a decimal normalized, so round trips stay exact
/// along any run of increment-order changes.
pub proof fn lemma_times_ten_preserves_normalized(d: FixedDecimal)
    requires
        d.wf(),
        d.normalized(),
    ensures
        d.spec_times_ten().normalized(),
{
}

/// Law: see `lemma_times_ten_preserves_normalized`.
pub proof fn lemma_tenth_preserves_normalized(d: FixedDecimal)
    requires
        d.wf(),
        d.normalized(),
    ensures
        d.spec_tenth().normalized(),
{
}

pub fn pow10_exec(e: u32) -> (r: i128)
    requires
        e <= MAX_SCALE,
    ensures
        r == pow10(e as nat),
        1 <= r <= 1_000_000_000_000_000_000,
{
    proof {
        lemma_pow10_bound(e as nat);
    }
    let mut r: i128 = 1;
    let mut i: u32 = 0;
    while i < e
        invariant
            i <= e,
            e <= MAX_SCALE,
            r == pow10(i as nat),
        decreases e - i,
    {
        proof {
            lemma_pow10_bound((i + 1) as nat);
        }
        r = r * 10;
        i = i + 1;
    }
    r
}

} // verus!
