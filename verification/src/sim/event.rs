//! Triggers, events, and the managers that pair them.
use crate::sim::scalar::{Scalar, Vec2};
use crate::sim::{world_of, Constraint, Particle, SimulationState, World};
use vstd::prelude::*;

verus! {

/// An action on the world, run when its trigger fires.
pub trait SimEvent: Copy {
    /// The world as this event leaves it.
    spec fn applied(&self, world: World) -> World;

    /// Runs the event on the particles and gravity of a state.
    fn trigger(&self, particles: &mut Vec<Particle>, gravity_accel: &mut Vec2)
        ensures
            world_of(final(particles)@, *final(gravity_accel)) == self.applied(
                world_of(old(particles)@, *old(gravity_accel)),
            ),
    ;
}

/// A predicate over the world.
pub trait SimTrigger: Copy {
    /// Whether the trigger fires on this world.
    spec fn fires(&self, world: World) -> bool;

    /// Evaluates the trigger on the particles and gravity of a state.
    fn is_triggered(&self, particles: &Vec<Particle>, gravity_accel: Vec2) -> (r: bool)
        ensures
            r == self.fires(world_of(particles@, gravity_accel)),
    ;
}

/// The world after the given events have run on it, first to last.
pub open spec fn run_events<E: SimEvent>(events: Seq<E>, world: World) -> World
    decreases events.len(),
{
    if events.len() == 0 {
        world
    } else {
        events.last().applied(run_events(events.drop_last(), world))
    }
}

/// One trigger and the events that run, in list order, when it fires.
pub struct TriggerManager<T, E> {
    pub trigger: T,
    pub events: Vec<E>,
}

/// A trigger manager as a mathematical value.
pub struct ManagerView<T, E> {
    pub trigger: T,
    pub events: Seq<E>,
}

impl<T, E> View for TriggerManager<T, E> {
    type V = ManagerView<T, E>;

    open spec fn view(&self) -> ManagerView<T, E> {
        ManagerView { trigger: self.trigger, events: self.events@ }
    }
}

impl<T: SimTrigger, E: SimEvent> ManagerView<T, E> {
    /// The world after this manager has looked at it: every event has run
    /// if the trigger fires on the world as it was, none otherwise.
    pub open spec fn processed(self, world: World) -> World {
        if self.trigger.fires(world) {
            run_events(self.events, world)
        } else {
            world
        }
    }
}

impl<T: SimTrigger, E: SimEvent> TriggerManager<T, E> {
    /// Pairs a trigger with its events.
    pub fn new(trigger: T, events: Vec<E>) -> (r: Self)
        ensures
            r@ == (ManagerView { trigger, events: events@ }),
    {
        TriggerManager { trigger, events }
    }

    /// Evaluates the trigger on `sim` and, if it fires, runs every event in
    /// list order.  The trigger sees the state as it is before any event.
    pub fn process<C: Constraint>(&self, sim: &mut SimulationState<C, T, E>)
        ensures
            final(sim)@ == old(sim)@.with_world(self@.processed(old(sim)@.world())),
    {
        if self.trigger.is_triggered(&sim.particles, sim.gravity_accel) {
            let mut i: usize = 0;
            while i < self.events.len()
                invariant
                    i <= self.events.len(),
                    sim.constraints == old(sim).constraints,
                    sim.trigger_managers == old(sim).trigger_managers,
                    sim@.world() == run_events(self.events@.take(i as int), old(sim)@.world()),
                decreases self.events.len() - i,
            {
                proof {
                    assert(self.events@.take(i + 1).drop_last() =~= self.events@.take(i as int));
                }
                self.events[i].trigger(&mut sim.particles, &mut sim.gravity_accel);
                i += 1;
            }
            proof {
                assert(self.events@.take(i as int) =~= self.events@);
            }
        }
    }
}

impl<T: SimTrigger, E: SimEvent> Clone for TriggerManager<T, E> {
    /// A deep copy: the same trigger and the same events, in a list of
    /// their own.
    fn clone(&self) -> (r: Self)
        ensures
            r@ == self@,
    {
        let mut events: Vec<E> = Vec::new();
        let mut i: usize = 0;
        while i < self.events.len()
            invariant
                i <= self.events.len(),
                events@ == self.events@.take(i as int),
            decreases self.events.len() - i,
        {
            events.push(self.events[i]);
            assert(events@ =~= self.events@.take(i + 1));
            i += 1;
        }
        assert(events@ =~= self.events@);
        TriggerManager { trigger: self.trigger, events }
    }
}

/// Appends a copy of its particle to the world.
#[derive(Clone, Copy, Debug)]
pub struct SpawnEvent {
    pub particle: Particle,
}

impl SimEvent for SpawnEvent {
    open spec fn applied(&self, world: World) -> World {
        world_of(world.particles.push(self.particle), world.gravity_accel)
    }

    fn trigger(&self, particles: &mut Vec<Particle>, gravity_accel: &mut Vec2) {
        particles.push(self.particle);
    }
}

/// A distance that is `now` and was `before` has left the circle of the
/// given radius in the last step: it is beyond the radius and was not.
pub open spec fn left_circle_spec(now: Scalar, before: Scalar, radius: Scalar) -> bool {
    now.gt_spec(radius) && before.le_spec(radius)
}

/// Some pair of `distances` (the distance now, the distance before) has
/// left the circle in the last step.
pub open spec fn any_left_circle_spec(distances: Seq<(Scalar, Scalar)>, radius: Scalar) -> bool {
    exists|i: int|
        0 <= i < distances.len() && left_circle_spec(
            (#[trigger] distances[i]).0,
            distances[i].1,
            radius,
        )
}

/// Whether a distance from the centre has left the circle in the last
/// step.
pub fn left_circle(now: Scalar, before: Scalar, radius: Scalar) -> (r: bool)
    ensures
        r == left_circle_spec(now, before, radius),
{
    now.gt(radius) && before.le(radius)
}

/// Whether any particle has left the circle in the last step, from each
/// particle's distance from the centre now and before.
pub fn any_left_circle(distances: &Vec<(Scalar, Scalar)>, radius: Scalar) -> (r: bool)
    ensures
        r == any_left_circle_spec(distances@, radius),
{
    let mut i: usize = 0;
    while i < distances.len()
        invariant
            i <= distances.len(),
            forall|k: int|
                0 <= k < i ==> !left_circle_spec((#[trigger] distances@[k]).0, distances@[k].1, radius),
        decreases distances.len() - i,
    {
        let pair = distances[i];
        if left_circle(pair.0, pair.1, radius) {
            return true;
        }
        i += 1;
    }
    false
}

/// A crossing is reported once: in the step after a particle has left the
/// circle its distance before is beyond the radius, so it has not left
/// again, wherever it is now.
pub proof fn lemma_left_circle_once(earlier: Scalar, now: Scalar, later: Scalar, radius: Scalar)
    requires
        left_circle_spec(now, earlier, radius),
    ensures
        !left_circle_spec(later, now, radius),
{
}

/// While a particle stays within the radius it has not left, and while it
/// stays beyond the radius it has not left either: only the step in which
/// the distance goes from within to beyond counts.
pub proof fn lemma_left_circle_needs_crossing(now: Scalar, before: Scalar, radius: Scalar)
    requires
        now.le_spec(radius) || before.gt_spec(radius),
    ensures
        !left_circle_spec(now, before, radius),
{
}

} // verus!
