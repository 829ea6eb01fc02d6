//! The decisions of the circular boundaries.
//!
//! A boundary with a gap lets a particle through where its direction lies
//! in the open arc, and turns it back elsewhere.  The numbers the decision
//! rests on (squared distances, cross products) come from the caller; which
//! of them decide, and how, stands here.
use crate::sim::scalar::Scalar;
use crate::sim::Particle;
use vstd::prelude::*;

verus! {

/// Which shell of a boundary a particle has crossed in the last step.
#[derive(Clone, Copy, Debug, PartialEq, Eq, Structural)]
pub enum ShellHit {
    /// Neither shell.
    Neither,
    /// The inner shell, from inside.
    Inside,
    /// The outer shell, from outside.
    Outside,
}

/// What a boundary with a gap does to a particle.
#[derive(Clone, Copy, Debug, PartialEq, Eq, Structural)]
pub enum GateVerdict {
    /// The particle is left as it is.
    Pass,
    /// The particle is reflected and put on the inner shell.
    ClampInside,
    /// The particle is reflected and put on the outer shell.
    ClampOutside,
}

/// The particle was inside the inner shell and has reached it: its
/// squared distance is now at least the shell's, and was less before.
pub open spec fn hits_inside_spec(pos_len_sq: Scalar, last_pos_len_sq: Scalar, radius_sq_inside: Scalar) -> bool {
    pos_len_sq.ge_spec(radius_sq_inside) && last_pos_len_sq.lt_spec(radius_sq_inside)
}

/// The particle was outside the outer shell and has reached it: its
/// squared distance is now at most the shell's, and was more before.
pub open spec fn hits_outside_spec(
    pos_len_sq: Scalar,
    last_pos_len_sq: Scalar,
    radius_sq_outside: Scalar,
) -> bool {
    pos_len_sq.le_spec(radius_sq_outside) && last_pos_len_sq.gt_spec(radius_sq_outside)
}

/// The shell crossed in the last step.  No step crosses both.
pub open spec fn shell_hit_spec(
    pos_len_sq: Scalar,
    last_pos_len_sq: Scalar,
    radius_sq_inside: Scalar,
    radius_sq_outside: Scalar,
) -> ShellHit {
    if hits_inside_spec(pos_len_sq, last_pos_len_sq, radius_sq_inside) {
        ShellHit::Inside
    } else if hits_outside_spec(pos_len_sq, last_pos_len_sq, radius_sq_outside) {
        ShellHit::Outside
    } else {
        ShellHit::Neither
    }
}

/// Half a turn, in radians, rounded to single precision.
pub const HALF_TURN_BITS: u32 = 0x4049_0fdb;

/// Whether a direction lies in the open arc, which runs counterclockwise
/// from its start ray to its end ray.  `arc_width` is the angle from the
/// start to the end, taken modulo a full turn, so that an arc through the
/// angle zero is as wide as any other.  `cross_start` is the cross product
/// of the start ray with the direction, `cross_end` that of the direction
/// with the end ray.  An arc wider than nothing and of at most half a turn
/// holds the directions that are left of its start and right of its end.
/// Any other arc holds those that are left of its start or right of its
/// end: for an arc wider than half a turn that is the arc itself, and for
/// an arc whose two rays are one, of width zero, it is the whole circle.
pub open spec fn in_open_arc_spec(arc_width: Scalar, cross_start: Scalar, cross_end: Scalar) -> bool {
    let left_of_start = cross_start.ge_spec(Scalar::zero_spec());
    let right_of_end = cross_end.ge_spec(Scalar::zero_spec());
    if arc_width.gt_spec(Scalar::zero_spec()) && arc_width.le_spec(Scalar { bits: HALF_TURN_BITS }) {
        left_of_start && right_of_end
    } else {
        left_of_start || right_of_end
    }
}

/// The verdict on a particle: it passes if it crossed no shell or crossed
/// in the open arc, and is put back on the shell it crossed otherwise.
pub open spec fn gate_verdict_spec(hit: ShellHit, in_open_arc: bool) -> GateVerdict {
    match hit {
        ShellHit::Neither => GateVerdict::Pass,
        ShellHit::Inside => if in_open_arc {
            GateVerdict::Pass
        } else {
            GateVerdict::ClampInside
        },
        ShellHit::Outside => if in_open_arc {
            GateVerdict::Pass
        } else {
            GateVerdict::ClampOutside
        },
    }
}

/// The shell that a particle has crossed in the last step, from the
/// squares of its distance now and before and of the two shell radii.
pub fn shell_hit(
    pos_len_sq: Scalar,
    last_pos_len_sq: Scalar,
    radius_sq_inside: Scalar,
    radius_sq_outside: Scalar,
) -> (r: ShellHit)
    ensures
        r == shell_hit_spec(pos_len_sq, last_pos_len_sq, radius_sq_inside, radius_sq_outside),
{
    if pos_len_sq.ge(radius_sq_inside) && last_pos_len_sq.lt(radius_sq_inside) {
        ShellHit::Inside
    } else if pos_len_sq.le(radius_sq_outside) && last_pos_len_sq.gt(radius_sq_outside) {
        ShellHit::Outside
    } else {
        ShellHit::Neither
    }
}

/// Whether a direction lies in the open arc of a boundary.
pub fn in_open_arc(arc_width: Scalar, cross_start: Scalar, cross_end: Scalar) -> (r: bool)
    ensures
        r == in_open_arc_spec(arc_width, cross_start, cross_end),
{
    let left_of_start = cross_start.ge(Scalar::zero());
    let right_of_end = cross_end.ge(Scalar::zero());
    if arc_width.gt(Scalar::zero()) && arc_width.le(Scalar::from_bits(HALF_TURN_BITS)) {
        left_of_start && right_of_end
    } else {
        left_of_start || right_of_end
    }
}

/// Whether a particle at distance `dist` from the centre, its own radius
/// included, is beyond a plain boundary of the given radius, and so is
/// pushed back and reflected.
pub fn overflows(dist: Scalar, radius: Scalar) -> (r: bool)
    ensures
        r == dist.gt_spec(radius),
{
    dist.gt(radius)
}

/// The verdict of a boundary with a gap on one particle.
pub fn gate_verdict(hit: ShellHit, in_open_arc: bool) -> (r: GateVerdict)
    ensures
        r == gate_verdict_spec(hit, in_open_arc),
{
    match hit {
        ShellHit::Neither => GateVerdict::Pass,
        ShellHit::Inside => if in_open_arc {
            GateVerdict::Pass
        } else {
            GateVerdict::ClampInside
        },
        ShellHit::Outside => if in_open_arc {
            GateVerdict::Pass
        } else {
            GateVerdict::ClampOutside
        },
    }
}

/// Carries out a verdict on a particle.  A particle that passes is left
/// as it is, bit for bit: neither put elsewhere nor reflected.  One that
/// is turned back becomes what `clamp` gives for it and the verdict.
pub fn apply_verdict<K: Fn(Particle, GateVerdict) -> Particle>(
    particle: &mut Particle,
    verdict: GateVerdict,
    clamp: &K,
)
    requires
        forall|p: Particle, v: GateVerdict| clamp.requires((p, v)),
    ensures
        verdict == GateVerdict::Pass ==> *final(particle) == *old(particle),
        verdict != GateVerdict::Pass ==> clamp.ensures((*old(particle), verdict), *final(particle)),
{
    match verdict {
        GateVerdict::Pass => {},
        GateVerdict::ClampInside => {
            *particle = clamp(*particle, GateVerdict::ClampInside);
        },
        GateVerdict::ClampOutside => {
            *particle = clamp(*particle, GateVerdict::ClampOutside);
        },
    }
}

/// No step reaches the inner shell from inside and the outer shell from
/// outside at once, whatever the two radii are.
pub proof fn lemma_shells_exclusive(
    pos_len_sq: Scalar,
    last_pos_len_sq: Scalar,
    radius_sq_inside: Scalar,
    radius_sq_outside: Scalar,
)
    ensures
        !(hits_inside_spec(pos_len_sq, last_pos_len_sq, radius_sq_inside) && hits_outside_spec(
            pos_len_sq,
            last_pos_len_sq,
            radius_sq_outside,
        )),
{
}

/// Where the two rays of an arc are one, so that the direction is left of
/// the one exactly when it is not right of the other, an arc of width zero
/// is open in every direction.
pub proof fn lemma_arc_of_no_width_is_open(cross_start: Scalar, cross_end: Scalar)
    requires
        !cross_start.is_nan_spec(),
        !cross_end.is_nan_spec(),
        cross_start.rank() == -cross_end.rank(),
    ensures
        in_open_arc_spec(Scalar::zero_spec(), cross_start, cross_end),
{
    assert(0u32 & 0x7fff_ffffu32 == 0u32) by (bit_vector);
}

/// A particle that crosses a shell in the open arc passes; one that
/// crosses a shell outside the arc does not.
pub proof fn lemma_gate_passes_in_arc_only(hit: ShellHit, in_open_arc: bool)
    requires
        hit != ShellHit::Neither,
    ensures
        gate_verdict_spec(hit, in_open_arc) == GateVerdict::Pass <==> in_open_arc,
{
}

/// A particle that rests at a shell, or stays on one side of it, crosses
/// nothing: where its squared distance was already at least the inner
/// shell's and at most the outer shell's, no shell is hit, whatever its
/// distance is now.
pub proof fn lemma_no_hit_without_crossing(
    pos_len_sq: Scalar,
    last_pos_len_sq: Scalar,
    radius_sq_inside: Scalar,
    radius_sq_outside: Scalar,
)
    requires
        last_pos_len_sq.ge_spec(radius_sq_inside),
        last_pos_len_sq.le_spec(radius_sq_outside),
    ensures
        shell_hit_spec(pos_len_sq, last_pos_len_sq, radius_sq_inside, radius_sq_outside)
            == ShellHit::Neither,
{
}

} // verus!
