//! The per-frame simulation state machine.
//!
//! Each frame, the seven input signals are folded into the state in a fixed
//! order: increment-order scaling first, then point-count growth and
//! shrinkage, then the pause toggle, then navigation — with forward taking
//! precedence over backward — and finally, if anything forced a step or the
//! animation is unpaused, the factor advances by the increment in the current
//! direction.  That advance is the sole place the factor changes.  The point
//! ring is rebuilt exactly when the point count changed.

use vstd::prelude::*;

verus! {

use crate::decimal::FixedDecimal;
use crate::decimal::MANTISSA_LIMIT;
use crate::decimal::pow10;
use crate::decimal::pow10_exec;
use crate::decimal::lemma_pow10_bound;
use crate::decimal::lemma_pow10_pos;
use crate::decimal::lemma_mantissa_product_bound;
use crate::geometry::AngularPosition;
use crate::geometry::positions;
use crate::geometry::generate;

/// Amount by which the point count grows or shrinks, and its floor.
pub const POINT_STEP: usize = 5;

/// Largest supported point count; keeps the edge-target products in range.
pub const MAX_POINTS: usize = 1_000_000_000;

/// Point count at startup.
pub const DEFAULT_POINTS: usize = 200;

/// Which way the factor moves when the animation advances.
#[derive(Clone, Copy, PartialEq, Eq, Structural, Debug)]
pub enum Direction {
    Increasing,
    Decreasing,
}

/// One frame's worth of input signals.  The increment-order and pause signals
/// are edge-triggered (the frontend reports a press once); the point-count
/// and navigation signals are level-triggered (reported every frame held).
#[derive(Clone, Copy, PartialEq, Eq, Structural, Debug)]
pub struct InputSignals {
    pub decrease_increment: bool,
    pub increase_increment: bool,
    pub grow_points: bool,
    pub shrink_points: bool,
    pub toggle_pause: bool,
    pub advance_forward: bool,
    pub advance_backward: bool,
}

impl InputSignals {
    /// A frame on which no signal is active.
    pub fn none() -> (r: InputSignals)
        ensures
            r == (InputSignals {
                decrease_increment: false,
                increase_increment: false,
                grow_points: false,
                shrink_points: false,
                toggle_pause: false,
                advance_forward: false,
                advance_backward: false,
            }),
    {
        InputSignals {
            decrease_increment: false,
            increase_increment: false,
            grow_points: false,
            shrink_points: false,
            toggle_pause: false,
            advance_forward: false,
            advance_backward: false,
        }
    }
}

/// The evolving simulation state: the factor, its per-frame increment, the
/// point count, the direction of travel, and the pause flag.
#[derive(Clone, Copy, PartialEq, Eq, Structural, Debug)]
pub struct SimulationState {
    pub factor: FixedDecimal,
    pub factor_increment: FixedDecimal,
    pub num_points: usize,
    pub direction: Direction,
    pub paused: bool,
}

/// The state at startup: factor 2, increment 0.01, 200 points, increasing,
/// running.
pub open spec fn initial_state() -> SimulationState {
    SimulationState {
        factor: (FixedDecimal { mantissa: 2, scale: 0 }),
        factor_increment: (FixedDecimal { mantissa: 1, scale: 2 }),
        num_points: DEFAULT_POINTS,
        direction: Direction::Increasing,
        paused: false,
    }
}

impl SimulationState {
    /// Invariants the state machine maintains: both decimals in range, the
    /// increment strictly positive, and the point count a positive multiple
    /// of `POINT_STEP` no larger than `MAX_POINTS`.
    pub open spec fn wf(self) -> bool {
        &&& self.factor.wf()
        &&& self.factor_increment.wf()
        &&& self.factor_increment.rep() > 0
        &&& POINT_STEP <= self.num_points <= MAX_POINTS
        &&& self.num_points % POINT_STEP == 0
    }

    /// The increment after this frame's order-of-magnitude signals: lowered
    /// first, then raised, as the frame handles the signals in that order.
    pub open spec fn spec_increment_after(self, input: InputSignals) -> FixedDecimal {
        let lowered = if input.decrease_increment {
            self.factor_increment.spec_tenth()
        } else {
            self.factor_increment
        };
        if input.increase_increment {
            lowered.spec_times_ten()
        } else {
            lowered
        }
    }

    /// The point count after this frame's grow and shrink signals; shrinking
    /// at the floor is a no-op, not an error.
    pub open spec fn spec_points_after(self, input: InputSignals) -> usize {
        let grown = if input.grow_points {
            (self.num_points + POINT_STEP) as usize
        } else {
            self.num_points
        };
        if input.shrink_points && grown > POINT_STEP {
            (grown - POINT_STEP) as usize
        } else {
            grown
        }
    }

    pub open spec fn spec_paused_after(self, input: InputSignals) -> bool {
        if input.toggle_pause {
            !self.paused
        } else {
            self.paused
        }
    }

    /// Navigation sets the direction for this and later frames; when both
    /// signals are active at once, forward wins.
    pub open spec fn spec_direction_after(self, input: InputSignals) -> Direction {
        if input.advance_forward {
            Direction::Increasing
        } else if input.advance_backward {
            Direction::Decreasing
        } else {
            self.direction
        }
    }

    /// Signals that force an animation step this frame even while paused.
    pub open spec fn forces_step(input: InputSignals) -> bool {
        input.grow_points || input.shrink_points || input.advance_forward
            || input.advance_backward
    }

    /// Whether the factor advances this frame: something forced a step, or
    /// the animation is not paused (after this frame's toggle).
    pub open spec fn spec_advances(self, input: InputSignals) -> bool {
        Self::forces_step(input) || !self.spec_paused_after(input)
    }

    pub open spec fn spec_factor_after(self, input: InputSignals) -> FixedDecimal {
        if self.spec_advances(input) {
            if self.spec_direction_after(input) == Direction::Increasing {
                self.factor.spec_plus(self.spec_increment_after(input))
            } else {
                self.factor.spec_minus(self.spec_increment_after(input))
            }
        } else {
            self.factor
        }
    }

    /// One frame of the state machine, as a total function on states.
    pub open spec fn spec_step(self, input: InputSignals) -> SimulationState {
        SimulationState {
            factor: self.spec_factor_after(input),
            factor_increment: self.spec_increment_after(input),
            num_points: self.spec_points_after(input),
            direction: self.spec_direction_after(input),
            paused: self.spec_paused_after(input),
        }
    }

    /// The frame's arithmetic stays in range: raising the increment's order,
    /// growing the ring, and advancing the factor all fit the representation.
    /// Outside this, the frame would overflow the decimals, and a frontend
    /// should stop rather than wrap.
    pub open spec fn spec_can_step(self, input: InputSignals) -> bool {
        let lowered = if input.decrease_increment {
            self.factor_increment.spec_tenth()
        } else {
            self.factor_increment
        };
        &&& (input.increase_increment ==> lowered.can_times_ten())
        &&& (input.grow_points ==> self.num_points + POINT_STEP <= MAX_POINTS)
        &&& (self.spec_advances(input) ==> (if self.spec_direction_after(input)
            == Direction::Increasing {
            self.factor.can_plus(self.spec_increment_after(input))
        } else {
            self.factor.can_minus(self.spec_increment_after(input))
        }))
    }

    pub fn new() -> (r: SimulationState)
        ensures
            r == initial_state(),
            r.wf(),
    {
        let r = SimulationState {
            factor: FixedDecimal::new(2, 0),
            factor_increment: FixedDecimal::new(1, 2),
            num_points: DEFAULT_POINTS,
            direction: Direction::Increasing,
            paused: false,
        };
        proof {
            lemma_pow10_pos(16);
        }
        r
    }

    /// Decide, before stepping, whether this frame's arithmetic fits; the
    /// frontend checks this and stops on overflow rather than wrapping.
    pub fn can_step(&self, input: &InputSignals) -> (r: bool)
        requires
            self.wf(),
        ensures
            r == self.spec_can_step(*input),
    {
        let lowered = if input.decrease_increment {
            self.factor_increment.tenth()
        } else {
            self.factor_increment
        };
        if input.increase_increment && lowered.scale == 0 {
            let raised = 10 * lowered.mantissa;
            if !(-MANTISSA_LIMIT <= raised && raised <= MANTISSA_LIMIT) {
                return false;
            }
        }
        let inc = if input.increase_increment {
            lowered.times_ten()
        } else {
            lowered
        };
        if input.grow_points && self.num_points > MAX_POINTS - POINT_STEP {
            return false;
        }
        let paused_after = if input.toggle_pause {
            !self.paused
        } else {
            self.paused
        };
        let advances = input.grow_points || input.shrink_points || input.advance_forward
            || input.advance_backward || !paused_after;
        if advances {
            let s = if self.factor.scale >= inc.scale {
                self.factor.scale
            } else {
                inc.scale
            };
            let pa = pow10_exec(s - self.factor.scale);
            let pb = pow10_exec(s - inc.scale);
            proof {
                lemma_mantissa_product_bound(self.factor.mantissa, pa);
                lemma_mantissa_product_bound(inc.mantissa, pb);
            }
            let a = self.factor.mantissa * pa;
            let b = inc.mantissa * pb;
            let increasing = if input.advance_forward {
                true
            } else if input.advance_backward {
                false
            } else {
                self.direction == Direction::Increasing
            };
            let total = if increasing {
                a + b
            } else {
                a - b
            };
            if !(-MANTISSA_LIMIT <= total && total <= MANTISSA_LIMIT) {
                return false;
            }
        }
        true
    }

    /// Apply one frame of input to the state.  The factor moves exactly when
    /// a step was forced or the animation runs unpaused, and by exactly one
    /// increment in the prevailing direction.
    pub fn step(&mut self, input: &InputSignals)
        requires
            old(self).wf(),
            old(self).spec_can_step(*input),
        ensures
            *final(self) == old(self).spec_step(*input),
            final(self).wf(),
    {
        if input.decrease_increment {
            self.factor_increment = self.factor_increment.tenth();
        }
        if input.increase_increment {
            self.factor_increment = self.factor_increment.times_ten();
        }
        if input.grow_points {
            self.num_points = self.num_points + POINT_STEP;
        }
        if input.shrink_points && self.num_points > POINT_STEP {
            self.num_points = self.num_points - POINT_STEP;
        }
        if input.toggle_pause {
            self.paused = !self.paused;
        }
        let mut forced = input.grow_points || input.shrink_points;
        if input.advance_forward {
            self.direction = Direction::Increasing;
            forced = true;
        } else if input.advance_backward {
            self.direction = Direction::Decreasing;
            forced = true;
        }
        if forced || !self.paused {
            if self.direction == Direction::Increasing {
                self.factor = self.factor.plus(self.factor_increment);
            } else {
                self.factor = self.factor.minus(self.factor_increment);
            }
        }
        proof {
            lemma_points_after_wf(*old(self), *input);
        }
    }
}

/// `num / den` rounded to the nearest integer, ties away from zero; the
/// rounding the edge targets use.
pub open spec fn round_half_from_zero(num: int, den: int) -> int {
    if num >= 0 {
        (2 * num + den) / (2 * den)
    } else {
        -((2 * (-num) + den) / (2 * den))
    }
}

/// Law: the rounding really is to the nearest integer — the chosen multiple
/// of the denominator sits within half a denominator of the numerator — and
/// a tie falls away from zero.
pub proof fn lemma_round_half_from_zero_is_nearest(num: int, den: int)
    requires
        den > 0,
    ensures
        num >= 0 ==> -den <= 2 * num - 2 * (den * round_half_from_zero(num, den)) < den,
        num <= 0 ==> -den < 2 * num - 2 * (den * round_half_from_zero(num, den)) <= den,
{
    if num >= 0 {
        lemma_round_error_nonneg(num, den);
    }
    if num <= 0 {
        lemma_round_error_nonneg(-num, den);
        if num == 0 {
            vstd::arithmetic::div_mod::lemma_basic_div(den, 2 * den);
        }
        assert(round_half_from_zero(num, den) == -round_half_from_zero(-num, den));
        assert(den * (-round_half_from_zero(-num, den)) == -(den * round_half_from_zero(-num, den)))
            by (nonlinear_arith);
    }
}

/// The error bound of `round_half_from_zero` on a non-negative numerator.
proof fn lemma_round_error_nonneg(num: int, den: int)
    requires
        num >= 0,
        den > 0,
    ensures
        -den <= 2 * num - 2 * (den * round_half_from_zero(num, den)) < den,
{
    let t = 2 * num + den;
    let dd = 2 * den;
    let q = t / dd;
    vstd::arithmetic::div_mod::lemma_fundamental_div_mod(t, dd);
    vstd::arithmetic::div_mod::lemma_mod_division_less_than_divisor(t, dd);
    assert(round_half_from_zero(num, den) == q);
    assert(2 * num - 2 * (den * q) == (t % dd) - den) by (nonlinear_arith)
        requires
            t == 2 * num + den,
            dd == 2 * den,
            t == dd * q + t % dd;
}

/// Where point `n`'s edge lands: `round(n * factor) mod num_points`, with the
/// Euclidean remainder, so the index is in range even for negative factors.
pub open spec fn spec_edge_target(n: int, factor: FixedDecimal, num_points: int) -> int {
    round_half_from_zero(n * factor.mantissa, pow10(factor.scale as nat)) % num_points
}

/// The Euclidean remainder of a negated non-negative: either zero or the
/// modulus minus the positive remainder.
proof fn lemma_neg_mod(a: int, m: int)
    requires
        a >= 0,
        m > 0,
    ensures
        a % m == 0 ==> (-a) % m == 0,
        a % m != 0 ==> (-a) % m == m - (a % m),
{
    let q = a / m;
    let r = a % m;
    vstd::arithmetic::div_mod::lemma_fundamental_div_mod(a, m);
    vstd::arithmetic::div_mod::lemma_mod_division_less_than_divisor(a, m);
    if r == 0 {
        assert(-a == (-q) * m + 0) by (nonlinear_arith)
            requires
                a == m * q + 0;
        vstd::arithmetic::div_mod::lemma_fundamental_div_mod_converse_mod(-a, m, -q, 0);
    } else {
        assert(-a == (-q - 1) * m + (m - r)) by (nonlinear_arith)
            requires
                a == m * q + r;
        vstd::arithmetic::div_mod::lemma_fundamental_div_mod_converse_mod(-a, m, -q - 1, m - r);
    }
}

/// Compute point `n`'s edge target.  The product, the rounding and the
/// remainder are carried out exactly on the decimal's own parts; no floating
/// representation enters, so negative factors resolve to a valid index.
pub fn edge_target_index(factor: FixedDecimal, n: usize, num_points: usize) -> (r: usize)
    requires
        factor.wf(),
        1 <= num_points <= MAX_POINTS,
        n < num_points,
    ensures
        r == spec_edge_target(n as int, factor, num_points as int),
        r < num_points,
{
    proof {
        lemma_pow10_bound(factor.scale as nat);
    }
    let neg = factor.mantissa < 0;
    let mag: i128 = if neg {
        -factor.mantissa
    } else {
        factor.mantissa
    };
    proof {
        assert((n as int) * (mag as int) <= (MAX_POINTS as int) * (MANTISSA_LIMIT as int))
            by (nonlinear_arith)
            requires
                0 <= n as int <= MAX_POINTS as int,
                0 <= mag as int <= MANTISSA_LIMIT as int;
    }
    let p: u128 = (n as u128) * (mag as u128);
    let d: u128 = pow10_exec(factor.scale) as u128;
    let q: u128 = (2 * p + d) / (2 * d);
    let np: u128 = num_points as u128;
    let rem: u128 = q % np;
    proof {
        vstd::arithmetic::div_mod::lemma_mod_division_less_than_divisor(q as int, np as int);
        let numer = (n as int) * (factor.mantissa as int);
        if neg {
            assert(numer == -(p as int)) by (nonlinear_arith)
                requires
                    numer == (n as int) * (factor.mantissa as int),
                    p == (n as int) * (mag as int),
                    mag == -factor.mantissa;
            lemma_neg_mod(q as int, np as int);
            if numer < 0 {
                assert(round_half_from_zero(numer, d as int) == -(q as int));
            } else {
                assert(numer == 0);
                assert(p == 0);
                vstd::arithmetic::div_mod::lemma_basic_div(d as int, 2 * (d as int));
                assert(q == 0);
                vstd::arithmetic::div_mod::lemma_small_mod(0, np as nat);
                assert(rem == 0);
            }
        } else {
            assert(mag == factor.mantissa);
            assert(numer == p) by (nonlinear_arith)
                requires
                    numer == (n as int) * (factor.mantissa as int),
                    p == (n as int) * (mag as int),
                    mag == factor.mantissa;
            assert(round_half_from_zero(numer, d as int) == q);
        }
    }
    let idx: u128 = if neg {
        if rem == 0 {
            0
        } else {
            np - rem
        }
    } else {
        rem
    };
    idx as usize
}

/// The state machine together with the ring of boundary positions it implies.
/// The ring is a full replacement, never an incremental edit, and is rebuilt
/// exactly when the point count changes, so it can never lag the count.
pub struct Simulation {
    pub state: SimulationState,
    pub points: Vec<AngularPosition>,
}

impl Simulation {
    /// The ring always matches the current point count.
    pub open spec fn wf(self) -> bool {
        &&& self.state.wf()
        &&& self.points@ == positions(self.state.num_points)
    }

    /// The simulation at startup, with its ring already generated.
    pub fn new() -> (r: Simulation)
        ensures
            r.wf(),
            r.state == initial_state(),
            r.points@ == positions(DEFAULT_POINTS),
    {
        let state = SimulationState::new();
        let points = generate(state.num_points);
        Simulation { state, points }
    }

    /// Run one frame: fold the input into the state and rebuild the ring if
    /// the point count changed.  Returns whether it did, so a frontend knows
    /// to re-project the ring.
    pub fn step_frame(&mut self, input: &InputSignals) -> (geometry_changed: bool)
        requires
            old(self).wf(),
            old(self).state.spec_can_step(*input),
        ensures
            final(self).wf(),
            final(self).state == old(self).state.spec_step(*input),
            geometry_changed == (final(self).state.num_points != old(self).state.num_points),
    {
        let before = self.state.num_points;
        self.state.step(input);
        if self.state.num_points != before {
            self.points = generate(self.state.num_points);
            true
        } else {
            false
        }
    }

    /// Whether this frame's arithmetic fits; see `SimulationState::can_step`.
    pub fn can_step(&self, input: &InputSignals) -> (r: bool)
        requires
            self.wf(),
        ensures
            r == self.state.spec_can_step(*input),
    {
        self.state.can_step(input)
    }

    /// The index point `n`'s edge connects to, always within the ring.
    pub fn edge_target(&self, n: usize) -> (r: usize)
        requires
            self.wf(),
            n < self.state.num_points,
        ensures
            r == spec_edge_target(n as int, self.state.factor, self.state.num_points as int),
            r < self.state.num_points,
    {
        edge_target_index(self.state.factor, n, self.state.num_points)
    }

    /// All edge targets for the current frame, one per point, each in range.
    pub fn edge_targets(&self) -> (r: Vec<usize>)
        requires
            self.wf(),
        ensures
            r@.len() == self.state.num_points,
            forall|i: int|
                0 <= i < r@.len() ==> #[trigger] r@[i] == spec_edge_target(
                    i,
                    self.state.factor,
                    self.state.num_points as int,
                ) && r@[i] < self.state.num_points,
    {
        let mut r: Vec<usize> = Vec::new();
        let mut i: usize = 0;
        while i < self.state.num_points
            invariant
                self.wf(),
                i <= self.state.num_points,
                r@.len() == i,
                forall|j: int|
                    0 <= j < i ==> #[trigger] r@[j] == spec_edge_target(
                        j,
                        self.state.factor,
                        self.state.num_points as int,
                    ) && r@[j] < self.state.num_points,
            decreases self.state.num_points - i,
        {
            let t = self.edge_target(i);
            r.push(t);
            i = i + 1;
        }
        r
    }
}

/// A positive multiple of `POINT_STEP` strictly above the floor clears it by
/// a whole step.
proof fn lemma_multiple_above_step(n: usize)
    requires
        n % POINT_STEP == 0,
        n > POINT_STEP,
    ensures
        n >= 2 * POINT_STEP,
{
    vstd::arithmetic::div_mod::lemma_fundamental_div_mod(n as int, POINT_STEP as int);
    let q = n as int / POINT_STEP as int;
    assert(n == POINT_STEP * q);
    if q <= 1 {
        assert(POINT_STEP * q <= POINT_STEP) by (nonlinear_arith)
            requires
                q <= 1;
    }
}

/// Growth and shrinkage keep the point count a positive in-range multiple of
/// the step.
proof fn lemma_points_after_wf(s: SimulationState, input: InputSignals)
    requires
        s.wf(),
        input.grow_points ==> s.num_points + POINT_STEP <= MAX_POINTS,
    ensures
        POINT_STEP <= s.spec_points_after(input) <= MAX_POINTS,
        s.spec_points_after(input) % POINT_STEP == 0,
{
    let grown = if input.grow_points {
        (s.num_points + POINT_STEP) as usize
    } else {
        s.num_points
    };
    if input.grow_points {
        vstd::arithmetic::div_mod::lemma_mod_add_multiples_vanish(
            s.num_points as int,
            POINT_STEP as int,
        );
    }
    assert(grown % POINT_STEP == 0);
    if input.shrink_points && grown > POINT_STEP {
        lemma_multiple_above_step(grown);
        vstd::arithmetic::div_mod::lemma_mod_sub_multiples_vanish(
            grown as int,
            POINT_STEP as int,
        );
    }
}

/// The state machine folded over any number of frames of input.
pub open spec fn run(s: SimulationState, inputs: Seq<InputSignals>) -> SimulationState
    decreases inputs.len(),
{
    if inputs.len() == 0 {
        s
    } else {
        run(s, inputs.drop_last()).spec_step(inputs.last())
    }
}

/// A frame on which nothing fires that could step the animation or unpause
/// it; the increment-order signals may still fire.
pub open spec fn quiescent(input: InputSignals) -> bool {
    &&& !input.grow_points
    &&& !input.shrink_points
    &&& !input.toggle_pause
    &&& !input.advance_forward
    &&& !input.advance_backward
}

/// Law: while paused, with no navigation active — nor any other signal that
/// forces a step or unpauses — the factor is invariant across any number of
/// frames.  (A grow or shrink signal, by contrast, forces a step even while
/// paused, so it is excluded here along with the pause toggle.)
pub proof fn lemma_paused_factor_invariant(s: SimulationState, inputs: Seq<InputSignals>)
    requires
        s.paused,
        forall|k: int| 0 <= k < inputs.len() ==> quiescent(#[trigger] inputs[k]),
    ensures
        run(s, inputs).factor == s.factor,
        run(s, inputs).paused,
    decreases inputs.len(),
{
    if inputs.len() > 0 {
        let pre = inputs.drop_last();
        assert forall|k: int| 0 <= k < pre.len() implies quiescent(#[trigger] pre[k]) by {
            assert(pre[k] == inputs[k]);
        }
        lemma_paused_factor_invariant(s, pre);
        assert(quiescent(inputs.last()));
    }
}

/// Law: a frame that raises the increment's order followed by a frame that
/// lowers it restores the increment bit for bit, whatever else those frames
/// do — provided the increment is normalized, which every increment reachable
/// from the 0.01 start is (`lemma_times_ten_preserves_normalized`,
/// `lemma_tenth_preserves_normalized`).
pub proof fn lemma_increment_scaling_round_trip(
    s: SimulationState,
    up: InputSignals,
    down: InputSignals,
)
    requires
        s.factor_increment.wf(),
        s.factor_increment.can_times_ten(),
        s.factor_increment.normalized(),
        up.increase_increment && !up.decrease_increment,
        down.decrease_increment && !down.increase_increment,
    ensures
        s.spec_step(up).spec_step(down).factor_increment == s.factor_increment,
{
    crate::decimal::lemma_scale_round_trip(s.factor_increment);
}

/// Held grow frames add one step per frame to the point count, whatever else
/// fires on those frames.
proof fn lemma_grow_run(s: SimulationState, inputs: Seq<InputSignals>)
    requires
        forall|k: int|
            0 <= k < inputs.len() ==> (#[trigger] inputs[k]).grow_points && !inputs[k].shrink_points,
        s.num_points + POINT_STEP * inputs.len() <= usize::MAX,
    ensures
        run(s, inputs).num_points == s.num_points + POINT_STEP * inputs.len(),
    decreases inputs.len(),
{
    if inputs.len() > 0 {
        let pre = inputs.drop_last();
        assert forall|k: int|
            0 <= k < pre.len() implies (#[trigger] pre[k]).grow_points
            && !pre[k].shrink_points by {
            assert(pre[k] == inputs[k]);
        }
        lemma_grow_run(s, pre);
    }
}

/// Held shrink frames, started high enough to stay above the floor, remove
/// one step per frame.
proof fn lemma_shrink_run(s: SimulationState, inputs: Seq<InputSignals>)
    requires
        forall|k: int|
            0 <= k < inputs.len() ==> (#[trigger] inputs[k]).shrink_points && !inputs[k].grow_points,
        s.num_points > POINT_STEP * inputs.len(),
    ensures
        run(s, inputs).num_points == s.num_points - POINT_STEP * inputs.len(),
    decreases inputs.len(),
{
    if inputs.len() > 0 {
        let pre = inputs.drop_last();
        assert forall|k: int|
            0 <= k < pre.len() implies (#[trigger] pre[k]).shrink_points
            && !pre[k].grow_points by {
            assert(pre[k] == inputs[k]);
        }
        lemma_shrink_run(s, pre);
    }
}

/// Law: growing for any number of held frames and then shrinking for the same
/// number of frames returns the point count to its original value, and the
/// regenerated ring is identical to the original, position for position.
pub proof fn lemma_grow_shrink_round_trip(
    s: SimulationState,
    grows: Seq<InputSignals>,
    shrinks: Seq<InputSignals>,
)
    requires
        s.num_points >= 1,
        grows.len() == shrinks.len(),
        s.num_points + POINT_STEP * grows.len() <= usize::MAX,
        forall|k: int|
            0 <= k < grows.len() ==> (#[trigger] grows[k]).grow_points && !grows[k].shrink_points,
        forall|k: int|
            0 <= k < shrinks.len() ==> (#[trigger] shrinks[k]).shrink_points
                && !shrinks[k].grow_points,
    ensures
        run(run(s, grows), shrinks).num_points == s.num_points,
        positions(run(run(s, grows), shrinks).num_points) == positions(s.num_points),
{
    lemma_grow_run(s, grows);
    lemma_shrink_run(run(s, grows), shrinks);
}

} // verus!
