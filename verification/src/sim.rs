//! The simulated world and the solver that advances it.
pub mod channel;
pub mod constraints;
pub mod event;
pub mod interface;
pub mod manager;
pub mod scalar;

use crate::sim::event::{ManagerView, SimEvent, SimTrigger, TriggerManager};
use crate::sim::scalar::{Color, Scalar, Vec2};
use vstd::prelude::*;

verus! {

/// A point mass.  Its velocity is never stored: it is the difference of
/// `position` and `last_position` over the step that separates them.
#[derive(Clone, Copy, Debug, PartialEq, Eq, Structural)]
pub struct Particle {
    pub position: Vec2,
    pub last_position: Vec2,
    pub radius: Scalar,
    pub color: Color,
}

impl Particle {
    /// A particle at rest: its previous position is its position.
    pub fn new(position: Vec2, radius: Scalar, color: Color) -> (r: Particle)
        ensures
            r.position == position,
            r.last_position == position,
            r.radius == radius,
            r.color == color,
    {
        Particle { position, last_position: position, radius, color }
    }
}

/// The part of a state that triggers read and events change.
pub struct World {
    pub particles: Seq<Particle>,
    pub gravity_accel: Vec2,
}

/// The world made of the given particles and gravity.
pub open spec fn world_of(particles: Seq<Particle>, gravity_accel: Vec2) -> World {
    World { particles, gravity_accel }
}

/// A rule applied to every particle in every relaxation pass.  A constraint
/// holds its configuration only, and what it does to a particle depends on
/// that particle alone.
pub trait Constraint: Copy {
    /// The particle as this constraint leaves it.
    spec fn corrected(&self, particle: Particle) -> Particle;

    /// Corrects `particle` in place.
    fn constrain(&self, particle: &mut Particle)
        ensures
            *final(particle) == self.corrected(*old(particle)),
    ;
}

/// The complete world of one frame.
pub struct SimulationState<C, T, E> {
    /// In insertion order; events append at the end.
    pub particles: Vec<Particle>,
    /// In application order: where two constraints disagree on a particle,
    /// the later one has the last word.
    pub constraints: Vec<C>,
    pub trigger_managers: Vec<TriggerManager<T, E>>,
    pub gravity_accel: Vec2,
}

/// A state as a mathematical value.
pub struct StateView<C, T, E> {
    pub particles: Seq<Particle>,
    pub constraints: Seq<C>,
    pub trigger_managers: Seq<ManagerView<T, E>>,
    pub gravity_accel: Vec2,
}

impl<C, T, E> StateView<C, T, E> {
    /// The state with nothing in it and no gravity.
    pub open spec fn empty() -> Self {
        StateView {
            particles: Seq::empty(),
            constraints: Seq::empty(),
            trigger_managers: Seq::empty(),
            gravity_accel: Vec2::zero_spec(),
        }
    }

    /// What triggers read and events change.
    pub open spec fn world(self) -> World {
        world_of(self.particles, self.gravity_accel)
    }

    /// The same rules around another world.
    pub open spec fn with_world(self, world: World) -> Self {
        StateView {
            particles: world.particles,
            constraints: self.constraints,
            trigger_managers: self.trigger_managers,
            gravity_accel: world.gravity_accel,
        }
    }

    /// The same state with other particles.
    pub open spec fn with_particles(self, particles: Seq<Particle>) -> Self {
        StateView {
            particles,
            constraints: self.constraints,
            trigger_managers: self.trigger_managers,
            gravity_accel: self.gravity_accel,
        }
    }
}

impl<C, T, E> View for SimulationState<C, T, E> {
    type V = StateView<C, T, E>;

    open spec fn view(&self) -> StateView<C, T, E> {
        StateView {
            particles: self.particles@,
            constraints: self.constraints@,
            trigger_managers: self.trigger_managers@.map_values(|m: TriggerManager<T, E>| m@),
            gravity_accel: self.gravity_accel,
        }
    }
}

/// A particle after one pass of the constraints, each applied in list order.
pub open spec fn relax_once<C: Constraint>(constraints: Seq<C>, particle: Particle) -> Particle
    decreases constraints.len(),
{
    if constraints.len() == 0 {
        particle
    } else {
        constraints.last().corrected(relax_once(constraints.drop_last(), particle))
    }
}

/// A particle after `passes` relaxation passes.
pub open spec fn relax<C: Constraint>(constraints: Seq<C>, passes: nat, particle: Particle) -> Particle
    decreases passes,
{
    if passes == 0 {
        particle
    } else {
        relax_once(constraints, relax(constraints, (passes - 1) as nat, particle))
    }
}

/// Every particle after `passes` relaxation passes.
pub open spec fn relaxed<C: Constraint>(
    constraints: Seq<C>,
    passes: nat,
    particles: Seq<Particle>,
) -> Seq<Particle> {
    particles.map_values(|p: Particle| relax(constraints, passes, p))
}

/// The world after every manager has processed it, first to last.  Each
/// manager sees the world as the managers before it left it.
pub open spec fn after_triggers<T: SimTrigger, E: SimEvent>(
    managers: Seq<ManagerView<T, E>>,
    world: World,
) -> World
    decreases managers.len(),
{
    if managers.len() == 0 {
        world
    } else {
        managers.last().processed(after_triggers(managers.drop_last(), world))
    }
}

/// `after` is `before` moved by the integrator: the new position is what
/// the integrator gives for the old position, the position before it,
/// gravity and the step; the old position becomes the previous one.
pub open spec fn moved<F: Fn(Vec2, Vec2, Vec2, Scalar) -> Vec2>(
    integrate: F,
    gravity_accel: Vec2,
    dt: Scalar,
    before: Particle,
    after: Particle,
) -> bool {
    &&& integrate.ensures((before.position, before.last_position, gravity_accel, dt), after.position)
    &&& after.last_position == before.position
    &&& after.radius == before.radius
    &&& after.color == before.color
}

/// Every particle of `after` is the particle of `before` at its index,
/// moved by the integrator.
pub open spec fn integrated<F: Fn(Vec2, Vec2, Vec2, Scalar) -> Vec2>(
    integrate: F,
    gravity_accel: Vec2,
    dt: Scalar,
    before: Seq<Particle>,
    after: Seq<Particle>,
) -> bool {
    &&& after.len() == before.len()
    &&& forall|i: int|
        0 <= i < before.len() ==> moved(integrate, gravity_accel, dt, before[i], #[trigger] after[i])
}

/// `post` is `pre` one step later, where integration gave `midway`: the
/// managers run on `pre`, the integrator moves every particle of the world
/// they leave, and one relaxation pass corrects the moved particles.
pub open spec fn step_through<
    C: Constraint,
    T: SimTrigger,
    E: SimEvent,
    F: Fn(Vec2, Vec2, Vec2, Scalar) -> Vec2,
>(pre: StateView<C, T, E>, dt: Scalar, integrate: F, midway: Seq<Particle>, post: StateView<C, T, E>) -> bool {
    let fired = after_triggers(pre.trigger_managers, pre.world());
    &&& integrated(integrate, fired.gravity_accel, dt, fired.particles, midway)
    &&& post == pre.with_world(world_of(relaxed(pre.constraints, 1, midway), fired.gravity_accel))
}

/// `post` is a state that one step of duration `dt` can give from `pre`.
pub open spec fn step_relation<
    C: Constraint,
    T: SimTrigger,
    E: SimEvent,
    F: Fn(Vec2, Vec2, Vec2, Scalar) -> Vec2,
>(pre: StateView<C, T, E>, dt: Scalar, integrate: F, post: StateView<C, T, E>) -> bool {
    exists|midway: Seq<Particle>| step_through(pre, dt, integrate, midway, post)
}

/// `post` is a state that `steps` steps of duration `dt` each can give
/// from `pre`.
pub open spec fn steps_relation<
    C: Constraint,
    T: SimTrigger,
    E: SimEvent,
    F: Fn(Vec2, Vec2, Vec2, Scalar) -> Vec2,
>(pre: StateView<C, T, E>, steps: nat, dt: Scalar, integrate: F, post: StateView<C, T, E>) -> bool
    decreases steps,
{
    if steps == 0 {
        post == pre
    } else {
        exists|mid: StateView<C, T, E>|
            steps_relation(pre, (steps - 1) as nat, dt, integrate, mid) && #[trigger] step_relation(
                mid,
                dt,
                integrate,
                post,
            )
    }
}

/// `post` is a state that `dt`, cut into `steps` equal sub-steps, can
/// give from `pre`: `steps` steps, each of the duration that `divide`
/// gives for `dt` and `steps`.  No steps leave the state as it is.
pub open spec fn multi_step_relation<
    C: Constraint,
    T: SimTrigger,
    E: SimEvent,
    F: Fn(Vec2, Vec2, Vec2, Scalar) -> Vec2,
    D: Fn(Scalar, u32) -> Scalar,
>(
    pre: StateView<C, T, E>,
    steps: u32,
    dt: Scalar,
    integrate: F,
    divide: D,
    post: StateView<C, T, E>,
) -> bool {
    if steps == 0 {
        post == pre
    } else {
        exists|sub_dt: Scalar|
            divide.ensures((dt, steps), sub_dt) && #[trigger] steps_relation(
                pre,
                steps as nat,
                sub_dt,
                integrate,
                post,
            )
    }
}

impl<C: Constraint, T: SimTrigger, E: SimEvent> SimulationState<C, T, E> {
    /// The state with nothing in it and no gravity.
    pub fn new() -> (r: Self)
        ensures
            r@ == StateView::<C, T, E>::empty(),
    {
        let r = SimulationState {
            particles: Vec::new(),
            constraints: Vec::new(),
            trigger_managers: Vec::new(),
            gravity_accel: Vec2::zero(),
        };
        assert(r@.trigger_managers =~= Seq::empty());
        r
    }

    /// Appends a particle.
    pub fn add_particle(&mut self, particle: Particle)
        ensures
            final(self)@ == old(self)@.with_particles(old(self)@.particles.push(particle)),
    {
        self.particles.push(particle);
    }

    /// Appends a constraint; it is applied after those already there.
    pub fn add_constraint(&mut self, constraint: C)
        ensures
            final(self)@ == (StateView {
                constraints: old(self)@.constraints.push(constraint),
                ..old(self)@
            }),
    {
        self.constraints.push(constraint);
    }

    /// Appends a trigger manager; it is evaluated after those already there.
    pub fn add_trigger_manager(&mut self, manager: TriggerManager<T, E>)
        ensures
            final(self)@ == (StateView {
                trigger_managers: old(self)@.trigger_managers.push(manager@),
                ..old(self)@
            }),
    {
        self.trigger_managers.push(manager);
        assert(self@.trigger_managers =~= old(self)@.trigger_managers.push(manager@));
    }

    /// Runs `steps` relaxation passes: in each pass every constraint, in
    /// list order, corrects every particle.
    fn solve_constraints(&mut self, steps: u32)
        ensures
            final(self)@ == old(self)@.with_particles(
                relaxed(old(self)@.constraints, steps as nat, old(self)@.particles),
            ),
    {
        let ghost start = self.particles@;
        let ghost rules = self.constraints@;
        let mut pass: u32 = 0;
        assert(self.particles@ =~= relaxed(rules, 0, start));
        while pass < steps
            invariant
                pass <= steps,
                self.constraints@ == rules,
                self.trigger_managers == old(self).trigger_managers,
                self.gravity_accel == old(self).gravity_accel,
                self.particles@ == relaxed(rules, pass as nat, start),
            decreases steps - pass,
        {
            let ghost entry = self.particles@;
            let mut c: usize = 0;
            while c < self.constraints.len()
                invariant
                    c <= self.constraints.len(),
                    self.constraints@ == rules,
                    self.trigger_managers == old(self).trigger_managers,
                    self.gravity_accel == old(self).gravity_accel,
                    self.particles@.len() == entry.len(),
                    forall|k: int|
                        0 <= k < entry.len() ==> #[trigger] self.particles@[k] == relax_once(
                            rules.take(c as int),
                            entry[k],
                        ),
                decreases self.constraints.len() - c,
            {
                let constraint = self.constraints[c];
                let ghost before = self.particles@;
                let mut k: usize = 0;
                while k < self.particles.len()
                    invariant
                        k <= self.particles.len(),
                        c < rules.len(),
                        constraint == rules[c as int],
                        self.constraints@ == rules,
                        self.trigger_managers == old(self).trigger_managers,
                        self.gravity_accel == old(self).gravity_accel,
                        self.particles@.len() == before.len(),
                        forall|j: int|
                            0 <= j < k ==> #[trigger] self.particles@[j] == constraint.corrected(
                                before[j],
                            ),
                        forall|j: int| k <= j < before.len() ==> #[trigger] self.particles@[j] == before[j],
                    decreases self.particles.len() - k,
                {
                    let mut particle = self.particles[k];
                    constraint.constrain(&mut particle);
                    self.particles.set(k, particle);
                    k += 1;
                }
                proof {
                    assert(rules.take(c + 1).drop_last() =~= rules.take(c as int));
                }
                c += 1;
            }
            proof {
                assert(rules.take(c as int) =~= rules);
                assert(self.particles@ =~= relaxed(rules, (pass + 1) as nat, start));
            }
            pass += 1;
        }
    }

    /// Moves every particle by the integrator, then runs one relaxation
    /// pass.
    fn solve_pbd<F: Fn(Vec2, Vec2, Vec2, Scalar) -> Vec2>(&mut self, dt: Scalar, integrate: &F)
        requires
            forall|p: Vec2, l: Vec2, g: Vec2, h: Scalar| integrate.requires((p, l, g, h)),
        ensures
            exists|midway: Seq<Particle>|
                {
                    &&& #[trigger] integrated(
                        *integrate,
                        old(self).gravity_accel,
                        dt,
                        old(self)@.particles,
                        midway,
                    )
                    &&& final(self)@ == old(self)@.with_particles(
                        relaxed(old(self)@.constraints, 1, midway),
                    )
                },
    {
        let ghost start = self.particles@;
        let mut k: usize = 0;
        while k < self.particles.len()
            invariant
                k <= self.particles.len(),
                forall|p: Vec2, l: Vec2, g: Vec2, h: Scalar| integrate.requires((p, l, g, h)),
                self.constraints == old(self).constraints,
                self.trigger_managers == old(self).trigger_managers,
                self.gravity_accel == old(self).gravity_accel,
                self.particles@.len() == start.len(),
                forall|j: int|
                    0 <= j < k ==> moved(
                        *integrate,
                        self.gravity_accel,
                        dt,
                        start[j],
                        #[trigger] self.particles@[j],
                    ),
                forall|j: int| k <= j < start.len() ==> #[trigger] self.particles@[j] == start[j],
            decreases self.particles.len() - k,
        {
            let particle = self.particles[k];
            let next = integrate(particle.position, particle.last_position, self.gravity_accel, dt);
            self.particles.set(
                k,
                Particle {
                    position: next,
                    last_position: particle.position,
                    radius: particle.radius,
                    color: particle.color,
                },
            );
            k += 1;
        }
        let ghost midway = self.particles@;
        self.solve_constraints(1);
        proof {
            assert(integrated(*integrate, old(self).gravity_accel, dt, old(self)@.particles, midway));
        }
    }

    /// Lets every trigger manager, in list order, process the state.
    fn update_triggers(&mut self)
        ensures
            final(self)@ == old(self)@.with_world(
                after_triggers(old(self)@.trigger_managers, old(self)@.world()),
            ),
    {
        let ghost views = self@.trigger_managers;
        let mut managers: Vec<TriggerManager<T, E>> = Vec::new();
        std::mem::swap(&mut self.trigger_managers, &mut managers);
        let mut i: usize = 0;
        while i < managers.len()
            invariant
                i <= managers.len(),
                managers == old(self).trigger_managers,
                views == old(self)@.trigger_managers,
                self@.constraints == old(self)@.constraints,
                self@.trigger_managers.len() == 0,
                self@.world() == after_triggers(views.take(i as int), old(self)@.world()),
            decreases managers.len() - i,
        {
            proof {
                assert(views.take(i + 1).drop_last() =~= views.take(i as int));
                assert(views.take(i + 1).last() == managers@[i as int]@);
            }
            managers[i].process(self);
            i += 1;
        }
        proof {
            assert(views.take(i as int) =~= views);
        }
        self.trigger_managers = managers;
    }

    /// One step: triggers, integration, one relaxation pass.
    fn step<F: Fn(Vec2, Vec2, Vec2, Scalar) -> Vec2>(&mut self, dt: Scalar, integrate: &F)
        requires
            forall|p: Vec2, l: Vec2, g: Vec2, h: Scalar| integrate.requires((p, l, g, h)),
        ensures
            step_relation(old(self)@, dt, *integrate, final(self)@),
    {
        self.update_triggers();
        let ghost fired = self@;
        self.solve_pbd(dt, integrate);
        proof {
            let midway = choose|midway: Seq<Particle>|
                {
                    &&& #[trigger] integrated(*integrate, fired.gravity_accel, dt, fired.particles, midway)
                    &&& self@ == fired.with_particles(relaxed(fired.constraints, 1, midway))
                };
            assert(step_through(old(self)@, dt, *integrate, midway, self@));
        }
    }

    /// Advances the state by one step of duration `dt`.
    ///
    /// Every trigger manager processes the state, in list order, before
    /// anything moves.  Then `integrate` gives each particle its next
    /// position from its position, its previous position, gravity and
    /// `dt`, and the position it had becomes its previous position.  Last,
    /// every constraint, in list order, corrects every particle once.
    pub fn single_step<F: Fn(Vec2, Vec2, Vec2, Scalar) -> Vec2>(&mut self, dt: Scalar, integrate: &F)
        requires
            forall|p: Vec2, l: Vec2, g: Vec2, h: Scalar| integrate.requires((p, l, g, h)),
        ensures
            step_relation(old(self)@, dt, *integrate, final(self)@),
    {
        self.step(dt, integrate);
    }

    /// Advances the state by `dt`, cut into `steps` equal sub-steps:
    /// `divide` gives the duration of one sub-step from `dt` and `steps`,
    /// and the state is stepped `steps` times by that duration.  With no
    /// steps nothing is divided and nothing changes.
    pub fn multi_step<F: Fn(Vec2, Vec2, Vec2, Scalar) -> Vec2, D: Fn(Scalar, u32) -> Scalar>(
        &mut self,
        steps: u32,
        dt: Scalar,
        integrate: &F,
        divide: &D,
    )
        requires
            forall|p: Vec2, l: Vec2, g: Vec2, h: Scalar| integrate.requires((p, l, g, h)),
            forall|d: Scalar, n: u32| divide.requires((d, n)),
        ensures
            multi_step_relation(old(self)@, steps, dt, *integrate, *divide, final(self)@),
    {
        if steps == 0 {
            return ;
        }
        let sub_dt = divide(dt, steps);
        let mut done: u32 = 0;
        while done < steps
            invariant
                done <= steps,
                forall|p: Vec2, l: Vec2, g: Vec2, h: Scalar| integrate.requires((p, l, g, h)),
                steps_relation(old(self)@, done as nat, sub_dt, *integrate, self@),
            decreases steps - done,
        {
            let ghost mid = self@;
            self.step(sub_dt, integrate);
            proof {
                assert(steps_relation(old(self)@, done as nat, sub_dt, *integrate, mid)
                    && step_relation(mid, sub_dt, *integrate, self@));
            }
            done += 1;
        }
        proof {
            assert(divide.ensures((dt, steps), sub_dt) && steps_relation(
                old(self)@,
                steps as nat,
                sub_dt,
                *integrate,
                self@,
            ));
        }
    }
}

impl<C: Constraint, T: SimTrigger, E: SimEvent> Clone for SimulationState<C, T, E> {
    /// A deep copy: an equal state that shares nothing with this one.
    fn clone(&self) -> (r: Self)
        ensures
            r@ == self@,
    {
        let mut particles: Vec<Particle> = Vec::new();
        let mut i: usize = 0;
        while i < self.particles.len()
            invariant
                i <= self.particles.len(),
                particles@ == self.particles@.take(i as int),
            decreases self.particles.len() - i,
        {
            particles.push(self.particles[i]);
            assert(particles@ =~= self.particles@.take(i + 1));
            i += 1;
        }
        let mut constraints: Vec<C> = Vec::new();
        let mut j: usize = 0;
        while j < self.constraints.len()
            invariant
                j <= self.constraints.len(),
                constraints@ == self.constraints@.take(j as int),
            decreases self.constraints.len() - j,
        {
            constraints.push(self.constraints[j]);
            assert(constraints@ =~= self.constraints@.take(j + 1));
            j += 1;
        }
        let mut trigger_managers: Vec<TriggerManager<T, E>> = Vec::new();
        let mut m: usize = 0;
        while m < self.trigger_managers.len()
            invariant
                m <= self.trigger_managers.len(),
                trigger_managers@.len() == m,
                forall|k: int| 0 <= k < m ==> #[trigger] trigger_managers@[k]@ == self.trigger_managers@[k]@,
            decreases self.trigger_managers.len() - m,
        {
            trigger_managers.push(self.trigger_managers[m].clone());
            m += 1;
        }
        let r = SimulationState {
            particles,
            constraints,
            trigger_managers,
            gravity_accel: self.gravity_accel,
        };
        proof {
            assert(particles@ =~= self.particles@);
            assert(constraints@ =~= self.constraints@);
            assert(r@.trigger_managers =~= self@.trigger_managers);
        }
        r
    }
}

/// The integrator gives one outcome for one input.
pub open spec fn deterministic<F: Fn(Vec2, Vec2, Vec2, Scalar) -> Vec2>(integrate: F) -> bool {
    forall|input: (Vec2, Vec2, Vec2, Scalar), one: Vec2, other: Vec2|
        integrate.ensures(input, one) && integrate.ensures(input, other) ==> one == other
}

/// Stepping is a function of the state and the step's duration: with an
/// integrator that gives one outcome for one input, two steps of the same
/// duration from equal states end in equal states.
pub proof fn lemma_step_deterministic<
    C: Constraint,
    T: SimTrigger,
    E: SimEvent,
    F: Fn(Vec2, Vec2, Vec2, Scalar) -> Vec2,
>(
    pre: StateView<C, T, E>,
    dt: Scalar,
    integrate: F,
    one: StateView<C, T, E>,
    other: StateView<C, T, E>,
)
    requires
        deterministic(integrate),
        step_relation(pre, dt, integrate, one),
        step_relation(pre, dt, integrate, other),
    ensures
        one == other,
{
    let a = choose|midway: Seq<Particle>| step_through(pre, dt, integrate, midway, one);
    let b = choose|midway: Seq<Particle>| step_through(pre, dt, integrate, midway, other);
    let fired = after_triggers(pre.trigger_managers, pre.world());
    assert forall|i: int| 0 <= i < a.len() implies a[i] == b[i] by {
        let before = fired.particles[i];
        let input = (before.position, before.last_position, fired.gravity_accel, dt);
        assert(moved(integrate, fired.gravity_accel, dt, before, a[i]));
        assert(moved(integrate, fired.gravity_accel, dt, before, b[i]));
        assert(integrate.ensures(input, a[i].position));
        assert(integrate.ensures(input, b[i].position));
    }
    assert(a =~= b);
}

/// Several steps are the same steps taken one after another: `steps + 1`
/// steps lead from `pre` to `post` exactly when `steps` steps lead to some
/// state from which one step leads to `post`.  In particular two steps are
/// two single steps in a row.
pub proof fn lemma_steps_are_sequential<
    C: Constraint,
    T: SimTrigger,
    E: SimEvent,
    F: Fn(Vec2, Vec2, Vec2, Scalar) -> Vec2,
>(
    pre: StateView<C, T, E>,
    dt: Scalar,
    integrate: F,
    mid: StateView<C, T, E>,
    post: StateView<C, T, E>,
)
    requires
        step_relation(pre, dt, integrate, mid),
        step_relation(mid, dt, integrate, post),
    ensures
        steps_relation(pre, 1, dt, integrate, mid),
        steps_relation(pre, 2, dt, integrate, post),
{
    assert(steps_relation(pre, 0, dt, integrate, pre));
    assert(steps_relation(pre, 0, dt, integrate, pre) && step_relation(pre, dt, integrate, mid));
    assert(steps_relation(pre, 1, dt, integrate, mid));
    assert(steps_relation(pre, 1, dt, integrate, mid) && step_relation(mid, dt, integrate, post));
}

/// Cutting a duration in two is pure subdivision: with an integrator
/// that gives one outcome for one input, the state after
/// `multi_step(2, dt)` is the state after two single steps in a row, each
/// of the duration that `divide` gives for `dt` and two.
pub proof fn lemma_two_steps_agree<
    C: Constraint,
    T: SimTrigger,
    E: SimEvent,
    F: Fn(Vec2, Vec2, Vec2, Scalar) -> Vec2,
    D: Fn(Scalar, u32) -> Scalar,
>(
    pre: StateView<C, T, E>,
    dt: Scalar,
    half: Scalar,
    integrate: F,
    divide: D,
    at_once: StateView<C, T, E>,
    mid: StateView<C, T, E>,
    in_a_row: StateView<C, T, E>,
)
    requires
        deterministic(integrate),
        forall|other: Scalar| divide.ensures((dt, 2u32), other) ==> other == half,
        multi_step_relation(pre, 2, dt, integrate, divide, at_once),
        step_relation(pre, half, integrate, mid),
        step_relation(mid, half, integrate, in_a_row),
    ensures
        at_once == in_a_row,
{
    let sub_dt = choose|sub_dt: Scalar|
        divide.ensures((dt, 2u32), sub_dt) && #[trigger] steps_relation(
            pre,
            2,
            sub_dt,
            integrate,
            at_once,
        );
    assert(sub_dt == half);
    let second = choose|second: StateView<C, T, E>|
        steps_relation(pre, 1, half, integrate, second) && #[trigger] step_relation(
            second,
            half,
            integrate,
            at_once,
        );
    let first = choose|first: StateView<C, T, E>|
        steps_relation(pre, 0, half, integrate, first) && #[trigger] step_relation(
            first,
            half,
            integrate,
            second,
        );
    assert(first == pre);
    lemma_step_deterministic(pre, half, integrate, second, mid);
    lemma_step_deterministic(mid, half, integrate, at_once, in_a_row);
}

/// Nothing happens in the empty state: a step leads from it to itself and
/// nowhere else, whatever the integrator and the duration.
pub proof fn lemma_step_of_empty<
    C: Constraint,
    T: SimTrigger,
    E: SimEvent,
    F: Fn(Vec2, Vec2, Vec2, Scalar) -> Vec2,
>(dt: Scalar, integrate: F, post: StateView<C, T, E>)
    ensures
        step_relation(StateView::<C, T, E>::empty(), dt, integrate, post) <==> post
            == StateView::<C, T, E>::empty(),
{
    let empty = StateView::<C, T, E>::empty();
    let none = Seq::<Particle>::empty();
    assert(after_triggers(empty.trigger_managers, empty.world()) == empty.world());
    assert(relaxed(empty.constraints, 1, none) =~= none);
    assert(step_through(empty, dt, integrate, none, empty));
    if step_relation(empty, dt, integrate, post) {
        let midway = choose|midway: Seq<Particle>| step_through(empty, dt, integrate, midway, post);
        assert(midway =~= none);
    }
}

/// Any number of steps leads from the empty state to itself and nowhere
/// else.
pub proof fn lemma_steps_of_empty<
    C: Constraint,
    T: SimTrigger,
    E: SimEvent,
    F: Fn(Vec2, Vec2, Vec2, Scalar) -> Vec2,
>(steps: nat, dt: Scalar, integrate: F, post: StateView<C, T, E>)
    ensures
        steps_relation(StateView::<C, T, E>::empty(), steps, dt, integrate, post) <==> post
            == StateView::<C, T, E>::empty(),
    decreases steps,
{
    let empty = StateView::<C, T, E>::empty();
    if steps > 0 {
        let fewer = (steps - 1) as nat;
        lemma_steps_of_empty(fewer, dt, integrate, empty);
        lemma_step_of_empty(dt, integrate, post);
        if steps_relation(empty, steps, dt, integrate, post) {
            let mid = choose|mid: StateView<C, T, E>|
                steps_relation(empty, fewer, dt, integrate, mid) && #[trigger] step_relation(
                    mid,
                    dt,
                    integrate,
                    post,
                );
            lemma_steps_of_empty(fewer, dt, integrate, mid);
        }
        if post == empty {
            assert(steps_relation(empty, fewer, dt, integrate, empty) && step_relation(
                empty,
                dt,
                integrate,
                post,
            ));
        }
    }
}

} // verus!
