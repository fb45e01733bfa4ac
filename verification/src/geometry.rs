//! The ring of points: exact angular layout of `n` points on a circle.
//!
//! Point `i` of `n` sits at the angle `pi + 2*pi*(i/n)`; the leading `pi` is a
//! cosmetic phase offset that fixes the starting orientation.  The layout is
//! kept as exact fractions of a turn — each position carries its numerator and
//! the shared denominator — so the spacing of one `n`-th of a turn between
//! neighbours holds with no accumulated drift, however often the ring is
//! rebuilt.  Projecting a position to screen coordinates is the frontend's
//! concern.

use vstd::prelude::*;

verus! {

/// One point of the ring, at angle `pi + 2*pi * (turn_numer / turn_denom)`.
#[derive(Clone, Copy, PartialEq, Eq, Structural, Debug)]
pub struct AngularPosition {
    pub turn_numer: usize,
    pub turn_denom: usize,
}

/// The full ring for `n` points: position `i` is `i` n-ths of a turn past the
/// phase offset.
pub open spec fn positions(n: usize) -> Seq<AngularPosition> {
    Seq::new(n as nat, |i: int| AngularPosition { turn_numer: i as usize, turn_denom: n })
}

/// Build the ring of `n` boundary positions.  Pure in `n`: identical counts
/// always yield the identical sequence.  A count of zero yields the empty
/// ring.
pub fn generate(n: usize) -> (r: Vec<AngularPosition>)
    ensures
        r@ == positions(n),
        r@.len() == n,
{
    let mut r: Vec<AngularPosition> = Vec::new();
    let mut i: usize = 0;
    while i < n
        invariant
            i <= n,
            r@.len() == i,
            forall|j: int| 0 <= j < i ==> r@[j] == positions(n)[j],
        decreases n - i,
    {
        r.push(AngularPosition { turn_numer: i, turn_denom: n });
        i = i + 1;
    }
    proof {
        assert(r@ =~= positions(n));
    }
    r
}

/// Law: the ring of `n` points holds exactly `n` positions, all distinct, and
/// each is one `n`-th of a turn past its predecessor — even spacing with no
/// drift, directly from the closed form rather than from any running sum.
pub proof fn lemma_ring_evenly_spaced(n: usize)
    ensures
        positions(n).len() == n,
        forall|i: int|
            0 <= i < n ==> (#[trigger] positions(n)[i]) == (AngularPosition {
                turn_numer: i as usize,
                turn_denom: n,
            }),
        forall|i: int, j: int|
            0 <= i < j < n ==> #[trigger] positions(n)[i] != #[trigger] positions(n)[j],
        forall|i: int|
            1 <= i < n ==> (#[trigger] positions(n)[i]).turn_numer == positions(n)[
                i - 1
            ].turn_numer + 1,
{
    assert forall|i: int, j: int| 0 <= i < j < n implies #[trigger] positions(n)[i]
        != #[trigger] positions(n)[j] by {
        assert(positions(n)[i].turn_numer == i);
        assert(positions(n)[j].turn_numer == j);
    }
}

} // verus!
