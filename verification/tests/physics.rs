use simul8::sim::constraints::{
    apply_verdict, gate_verdict, in_open_arc, overflows, shell_hit, GateVerdict,
};
use simul8::sim::event::{any_left_circle, SimTrigger, SpawnEvent, TriggerManager};
use simul8::sim::scalar::{Color, Scalar, Vec2};
use simul8::sim::{Constraint, Particle, SimulationState, World};

const RED: Color = Color { r: 255, g: 0, b: 0, a: 255 };
const BLUE: Color = Color { r: 0, g: 0, b: 255, a: 255 };

fn s(x: f32) -> Scalar {
    Scalar::from_bits(x.to_bits())
}

fn f(x: Scalar) -> f32 {
    f32::from_bits(x.to_bits())
}

fn v(x: f32, y: f32) -> Vec2 {
    Vec2::new(s(x), s(y))
}

fn g(a: Vec2) -> glam::Vec2 {
    glam::vec2(f(a.x), f(a.y))
}

fn back(a: glam::Vec2) -> Vec2 {
    v(a.x, a.y)
}

fn distance(p: &Particle) -> f32 {
    g(p.position).length()
}

/// The integrator of the simulator, on single-precision numbers.
fn verlet(position: Vec2, last_position: Vec2, gravity: Vec2, dt: Scalar) -> Vec2 {
    let h = f(dt);
    let velocity = (g(position) - g(last_position)) / h + h * g(gravity);
    back(g(position) + h * velocity)
}

/// The duration of one of `steps` equal parts of `dt`.
fn divide(dt: Scalar, steps: u32) -> Scalar {
    s(f(dt) / steps as f32)
}

/// Puts the particle at `position` and turns its velocity about `normal`.
fn bounce(particle: &mut Particle, position: glam::Vec2, normal: glam::Vec2, elasticity: f32) {
    let velocity = g(particle.position) - g(particle.last_position);
    let reflected = velocity.reflect(normal) * elasticity;
    particle.position = back(position);
    particle.last_position = back(position - reflected);
}

#[derive(Clone, Copy)]
struct Circle {
    radius: f32,
    elasticity: f32,
}

impl Circle {
    fn correct(&self, particle: &mut Particle) {
        let position = g(particle.position);
        let dist = position.length() + f(particle.radius);
        if overflows(s(dist), s(self.radius)) {
            let normal = position.normalize();
            bounce(particle, position - normal * (dist - self.radius), normal, self.elasticity);
        }
    }
}

#[derive(Clone, Copy)]
struct HoleCircle {
    radius: f32,
    open_angle_start: f32,
    open_angle_end: f32,
    elasticity: f32,
}

impl HoleCircle {
    fn correct(&self, particle: &mut Particle) {
        let inside = self.radius - f(particle.radius) - 0.5 * 0.025;
        let outside = self.radius + f(particle.radius) + 0.5 * 0.025;
        let hit = shell_hit(
            s(g(particle.position).length_squared()),
            s(g(particle.last_position).length_squared()),
            s(inside * inside),
            s(outside * outside),
        );
        let direction = g(particle.position).normalize();
        let start = glam::vec2(self.open_angle_start.cos(), self.open_angle_start.sin());
        let end = glam::vec2(self.open_angle_end.cos(), self.open_angle_end.sin());
        let open = in_open_arc(
            s((self.open_angle_end - self.open_angle_start).rem_euclid(std::f32::consts::TAU)),
            s(start.perp_dot(direction)),
            s(direction.perp_dot(end)),
        );
        let elasticity = self.elasticity;
        apply_verdict(particle, gate_verdict(hit, open), &|mut crossing: Particle, verdict: GateVerdict| {
            let shell = if verdict == GateVerdict::ClampInside { inside } else { outside };
            bounce(&mut crossing, direction * shell, direction, elasticity);
            crossing
        });
    }
}

#[derive(Clone, Copy)]
enum Rule {
    Circle(Circle),
    HoleCircle(HoleCircle),
}

impl Constraint for Rule {
    fn corrected(&self, _particle: Particle) -> Particle {
        unreachable!()
    }

    fn constrain(&self, particle: &mut Particle) {
        match self {
            Rule::Circle(c) => c.correct(particle),
            Rule::HoleCircle(c) => c.correct(particle),
        }
    }
}

#[derive(Clone, Copy)]
enum Watch {
    AnyLeftCircle(f32),
    Always,
    Never,
}

impl SimTrigger for Watch {
    fn fires(&self, _world: World) -> bool {
        unreachable!()
    }

    fn is_triggered(&self, particles: &Vec<Particle>, _gravity_accel: Vec2) -> bool {
        match self {
            Watch::AnyLeftCircle(radius) => {
                let distances: Vec<(Scalar, Scalar)> = particles
                    .iter()
                    .map(|p| (s(g(p.position).length()), s(g(p.last_position).length())))
                    .collect();
                any_left_circle(&distances, s(*radius))
            }
            Watch::Always => true,
            Watch::Never => false,
        }
    }
}

type State = SimulationState<Rule, Watch, SpawnEvent>;

fn circle(radius: f32, elasticity: f32) -> Rule {
    Rule::Circle(Circle { radius, elasticity })
}

fn falling(gravity_y: f32) -> State {
    let mut state = State::new();
    state.gravity_accel = v(0.0, gravity_y);
    state.add_particle(Particle::new(v(0.0, 0.0), s(0.05), RED));
    state
}

#[test]
fn a_new_particle_is_at_rest() {
    let p = Particle::new(v(0.25, -0.5), s(0.05), RED);
    assert_eq!(p.position, v(0.25, -0.5));
    assert_eq!(p.last_position, v(0.25, -0.5));
    assert_eq!(p.radius, s(0.05));
    assert_eq!(p.color, RED);
}

#[test]
fn a_new_state_is_empty() {
    let state = State::new();
    assert!(state.particles.is_empty());
    assert!(state.constraints.is_empty());
    assert!(state.trigger_managers.is_empty());
    assert_eq!(state.gravity_accel, v(0.0, 0.0));
}

#[test]
fn adding_appends_at_the_end() {
    let mut state = State::new();
    let a = Particle::new(v(0.0, 0.0), s(0.1), RED);
    let b = Particle::new(v(1.0, 0.0), s(0.2), BLUE);
    state.add_particle(a);
    state.add_particle(b);
    state.add_constraint(circle(1.0, 1.0));
    state.add_constraint(circle(2.0, 0.5));
    state.add_trigger_manager(TriggerManager::new(Watch::Never, vec![]));
    state.add_trigger_manager(TriggerManager::new(Watch::Always, vec![SpawnEvent { particle: a }]));
    assert_eq!(state.particles, vec![a, b]);
    assert_eq!(state.constraints.len(), 2);
    assert!(matches!(state.constraints[1], Rule::Circle(Circle { radius, .. }) if radius == 2.0));
    assert_eq!(state.trigger_managers.len(), 2);
    assert!(matches!(state.trigger_managers[1].trigger, Watch::Always));
    assert_eq!(state.trigger_managers[1].events.len(), 1);
}

#[test]
fn a_step_integrates_position_from_the_implicit_velocity() {
    let mut state = falling(0.25);
    state.single_step(s(0.5), &verlet);
    assert_eq!(f(state.particles[0].position.y), 0.0625);
    assert_eq!(f(state.particles[0].last_position.y), 0.0);
    state.single_step(s(0.5), &verlet);
    assert_eq!(f(state.particles[0].position.y), 0.1875);
    assert_eq!(f(state.particles[0].last_position.y), 0.0625);
    assert_eq!(f(state.particles[0].position.x), 0.0);
    assert_eq!(state.particles[0].radius, s(0.05));
    assert_eq!(state.particles[0].color, RED);
}

#[test]
fn the_position_before_a_step_is_the_previous_position_after_it() {
    let mut state = falling(0.25);
    state.particles[0].last_position = v(-0.01, 0.02);
    for _ in 0..20 {
        let before = state.particles[0].position;
        state.single_step(s(1.0 / 60.0), &verlet);
        assert_eq!(state.particles[0].last_position, before);
    }
}

#[test]
fn a_step_leaves_the_rules_and_gravity_alone() {
    let mut state = falling(0.25);
    state.add_constraint(circle(1.0, 1.0));
    state.add_trigger_manager(TriggerManager::new(Watch::Never, vec![SpawnEvent { particle: state.particles[0] }]));
    state.single_step(s(0.5), &verlet);
    assert_eq!(state.constraints.len(), 1);
    assert_eq!(state.trigger_managers.len(), 1);
    assert_eq!(state.trigger_managers[0].events.len(), 1);
    assert_eq!(state.gravity_accel, v(0.0, 0.25));
}

#[test]
fn stepping_the_empty_state_changes_nothing() {
    let mut state = State::new();
    state.single_step(s(1.0 / 60.0), &verlet);
    state.multi_step(7, s(7.0 / 60.0), &verlet, &divide);
    assert!(state.particles.is_empty());
    assert!(state.constraints.is_empty());
    assert!(state.trigger_managers.is_empty());
    assert_eq!(state.gravity_accel, v(0.0, 0.0));
}

#[test]
fn steps_from_cloned_states_agree_bit_for_bit() {
    let mut source = falling(0.25);
    source.add_particle(Particle::new(v(0.3, -0.2), s(0.07), BLUE));
    source.particles[1].last_position = v(0.29, -0.22);
    source.add_constraint(circle(1.0, 0.9));
    source.add_trigger_manager(TriggerManager::new(
        Watch::AnyLeftCircle(0.4),
        vec![SpawnEvent { particle: Particle::new(v(0.1, 0.1), s(0.02), RED) }],
    ));
    let mut one = source.clone();
    let mut other = source.clone();
    for _ in 0..300 {
        one.single_step(s(1.0 / 60.0), &verlet);
    }
    for _ in 0..300 {
        other.single_step(s(1.0 / 60.0), &verlet);
    }
    assert!(one.particles.len() > 2);
    assert_eq!(one.particles, other.particles);
    assert_eq!(one.gravity_accel, other.gravity_accel);
    assert_eq!(source.particles.len(), 2);
    assert_eq!(source.particles[0].position, v(0.0, 0.0));
}

#[test]
fn a_clone_shares_nothing_with_its_source() {
    let mut source = falling(0.25);
    source.add_trigger_manager(TriggerManager::new(Watch::Never, vec![]));
    let mut copy = source.clone();
    copy.add_particle(Particle::new(v(1.0, 1.0), s(0.1), BLUE));
    copy.trigger_managers[0].events.push(SpawnEvent { particle: copy.particles[0] });
    copy.gravity_accel = v(1.0, 1.0);
    assert_eq!(source.particles.len(), 1);
    assert!(source.trigger_managers[0].events.is_empty());
    assert_eq!(source.gravity_accel, v(0.0, 0.25));
}

#[test]
fn two_steps_at_once_are_two_steps_in_a_row() {
    let mut at_once = falling(0.25);
    at_once.add_constraint(circle(0.2, 1.0));
    let mut in_a_row = at_once.clone();
    let whole = s(1.0f32 / 60.0);
    let half = divide(whole, 2);
    assert_eq!(f(half), (1.0f32 / 60.0) / 2.0);
    for _ in 0..200 {
        at_once.multi_step(2, whole, &verlet, &divide);
        in_a_row.single_step(half, &verlet);
        in_a_row.single_step(half, &verlet);
        assert_eq!(at_once.particles, in_a_row.particles);
    }
}

#[test]
fn two_half_steps_stay_close_to_one_whole_step() {
    let dt = 1.0f32 / 60.0;
    let mut halves = falling(0.25);
    let mut whole = falling(0.25);
    for _ in 0..60 {
        halves.multi_step(2, s(dt), &verlet, &divide);
        whole.single_step(s(dt), &verlet);
    }
    let (a, b) = (f(halves.particles[0].position.y), f(whole.particles[0].position.y));
    assert!((a - b).abs() < 2.0e-3, "{} against {}", a, b);
    assert!(a > 0.12 && a < 0.13);
}

#[test]
fn many_steps_at_once_are_that_many_steps_of_the_quotient() {
    let mut at_once = falling(0.25);
    at_once.add_constraint(circle(0.3, 0.8));
    let mut in_a_row = at_once.clone();
    at_once.multi_step(5, s(0.5), &verlet, &divide);
    for _ in 0..5 {
        in_a_row.single_step(s(0.1), &verlet);
    }
    assert_eq!(f(divide(s(0.5), 5)), 0.1);
    assert_eq!(at_once.particles, in_a_row.particles);
    let mut one = falling(0.25);
    let mut single = falling(0.25);
    one.multi_step(1, s(0.5), &verlet, &divide);
    single.single_step(s(0.5), &verlet);
    assert_eq!(one.particles, single.particles);
    assert_eq!(f(one.particles[0].position.y), 0.0625);
}

#[test]
fn no_steps_are_no_change() {
    let mut state = falling(0.25);
    state.multi_step(0, s(0.5), &verlet, &divide);
    assert_eq!(state.particles[0], Particle::new(v(0.0, 0.0), s(0.05), RED));
}

#[test]
fn a_trigger_sees_the_state_before_the_step() {
    let mut state = State::new();
    let mut runner = Particle::new(v(0.99, 0.0), s(0.01), RED);
    runner.last_position = v(0.97, 0.0);
    state.add_particle(runner);
    let spawned = Particle::new(v(0.0, 0.0), s(0.02), BLUE);
    state.add_trigger_manager(TriggerManager::new(Watch::AnyLeftCircle(1.0), vec![SpawnEvent { particle: spawned }]));
    state.single_step(s(1.0), &verlet);
    assert!(distance(&state.particles[0]) > 1.0);
    assert_eq!(state.particles.len(), 1);
    state.single_step(s(1.0), &verlet);
    assert_eq!(state.particles.len(), 2);
    assert_eq!(state.particles[1].color, BLUE);
}

#[test]
fn a_trigger_fires_on_the_crossing_and_not_again() {
    let mut state = State::new();
    let mut runner = Particle::new(v(0.0, 0.0), s(0.01), RED);
    runner.last_position = v(-0.3, 0.0);
    state.add_particle(runner);
    let spawned = Particle::new(v(0.0, 0.0), s(0.02), BLUE);
    state.add_trigger_manager(TriggerManager::new(Watch::AnyLeftCircle(1.0), vec![SpawnEvent { particle: spawned }]));
    let mut counts: Vec<usize> = Vec::new();
    for _ in 0..10 {
        state.single_step(s(1.0), &verlet);
        counts.push(state.particles.len());
    }
    assert_eq!(counts, vec![1, 1, 1, 1, 2, 2, 2, 2, 2, 2]);
    assert!(distance(&state.particles[0]) > 2.0);
    assert_eq!(state.particles[1].position, v(0.0, 0.0));
}

#[test]
fn events_run_in_list_order_when_the_trigger_fires() {
    let mut state = State::new();
    let first = Particle::new(v(0.1, 0.0), s(0.01), RED);
    let second = Particle::new(v(0.2, 0.0), s(0.02), BLUE);
    let manager = TriggerManager::new(
        Watch::Always,
        vec![SpawnEvent { particle: first }, SpawnEvent { particle: second }, SpawnEvent { particle: first }],
    );
    manager.process(&mut state);
    assert_eq!(state.particles, vec![first, second, first]);
    manager.process(&mut state);
    assert_eq!(state.particles.len(), 6);
    assert_eq!(state.particles[4], second);
}

#[test]
fn no_event_runs_when_the_trigger_does_not_fire() {
    let mut state = falling(0.25);
    let manager = TriggerManager::new(Watch::Never, vec![SpawnEvent { particle: state.particles[0] }]);
    manager.process(&mut state);
    assert_eq!(state.particles.len(), 1);
    let idle = TriggerManager::new(Watch::Always, Vec::<SpawnEvent>::new());
    idle.process(&mut state);
    assert_eq!(state.particles.len(), 1);
}

#[test]
fn a_later_manager_sees_what_an_earlier_one_spawned() {
    let mut state = State::new();
    let mut leaver = Particle::new(v(2.0, 0.0), s(0.01), BLUE);
    leaver.last_position = v(0.5, 0.0);
    state.add_trigger_manager(TriggerManager::new(Watch::Always, vec![SpawnEvent { particle: leaver }]));
    state.add_trigger_manager(TriggerManager::new(
        Watch::AnyLeftCircle(1.0),
        vec![SpawnEvent { particle: Particle::new(v(0.0, 0.0), s(0.03), RED) }],
    ));
    state.single_step(s(1.0), &verlet);
    assert_eq!(state.particles.len(), 2);
    assert_eq!(state.particles[1].color, RED);
    assert_eq!(state.particles[1].position, v(0.0, 0.0));
    assert_eq!(f(state.particles[0].position.x), 3.5);
}

#[test]
fn a_spawned_particle_moves_in_the_step_that_spawned_it() {
    let mut state = State::new();
    state.gravity_accel = v(0.0, 0.25);
    let spawned = Particle::new(v(0.0, 0.0), s(0.02), BLUE);
    state.add_trigger_manager(TriggerManager::new(Watch::Always, vec![SpawnEvent { particle: spawned }]));
    state.single_step(s(0.5), &verlet);
    assert_eq!(state.particles.len(), 1);
    assert_eq!(f(state.particles[0].position.y), 0.0625);
}

#[test]
fn the_last_constraint_has_the_last_word() {
    let mut wide_last = State::new();
    let mut far = Particle::new(v(3.0, 0.0), s(0.0), RED);
    far.last_position = v(3.0, 0.0);
    wide_last.add_particle(far);
    wide_last.add_constraint(circle(1.0, 0.0));
    wide_last.add_constraint(circle(2.0, 0.0));
    wide_last.single_step(s(1.0), &verlet);
    assert_eq!(f(wide_last.particles[0].position.x), 1.0);

    let mut pull = Particle::new(v(3.0, 0.0), s(0.0), RED);
    let towards = Rule::Circle(Circle { radius: 2.0, elasticity: 0.0 });
    let tighter = Rule::Circle(Circle { radius: 1.0, elasticity: 0.0 });
    towards.constrain(&mut pull);
    assert_eq!(f(pull.position.x), 2.0);
    tighter.constrain(&mut pull);
    assert_eq!(f(pull.position.x), 1.0);
    towards.constrain(&mut pull);
    assert_eq!(f(pull.position.x), 1.0);
}

#[test]
fn a_circle_keeps_a_falling_particle_inside() {
    let mut state = falling(0.25);
    state.add_constraint(circle(1.0, 1.0));
    let mut bounced = false;
    let mut previous_velocity = 0.0f32;
    for _ in 0..3000 {
        state.single_step(s(1.0 / 60.0), &verlet);
        let p = &state.particles[0];
        assert!(distance(p) <= 1.0 - 0.05 + 1.0e-4, "at distance {}", distance(p));
        let velocity = f(p.position.y) - f(p.last_position.y);
        if previous_velocity > 0.0 && velocity < 0.0 {
            bounced = true;
        }
        previous_velocity = velocity;
    }
    assert!(bounced);
}

#[test]
fn an_inelastic_circle_stops_a_particle_at_the_wall() {
    let mut state = falling(0.25);
    state.add_constraint(circle(1.0, 0.0));
    for _ in 0..600 {
        state.single_step(s(1.0 / 60.0), &verlet);
    }
    let p = &state.particles[0];
    assert!((distance(p) - 0.95).abs() < 1.0e-3, "at distance {}", distance(p));
    assert!((f(p.position.y) - f(p.last_position.y)).abs() < 1.0e-3);
}

#[test]
fn a_circle_of_no_radius_still_gives_numbers_or_nans_and_no_panic() {
    let mut state = falling(0.25);
    state.add_constraint(circle(0.0, 1.0));
    for _ in 0..10 {
        state.single_step(s(1.0 / 60.0), &verlet);
    }
    assert_eq!(state.particles.len(), 1);
}

/// A particle that flies outward along the direction at `angle` and
/// reaches the inner shell of a boundary of radius 1 in its next step.
fn outbound(angle: f32) -> Particle {
    let direction = glam::vec2(angle.cos(), angle.sin());
    let mut p = Particle::new(back(direction * 0.9), s(0.05), RED);
    p.last_position = back(direction * 0.8);
    p
}

fn gate(start: f32, end: f32) -> Rule {
    Rule::HoleCircle(HoleCircle { radius: 1.0, open_angle_start: start, open_angle_end: end, elasticity: 1.0 })
}

#[test]
fn a_particle_that_crosses_in_the_open_arc_passes() {
    let mut state = State::new();
    state.add_particle(outbound(0.3));
    state.add_constraint(gate(0.2, 0.4));
    state.single_step(s(1.0), &verlet);
    let p = &state.particles[0];
    assert!((distance(p) - 1.0).abs() < 1.0e-5);
    assert!((g(p.last_position).length() - 0.9).abs() < 1.0e-6);
    let mut free = State::new();
    free.add_particle(outbound(0.3));
    free.single_step(s(1.0), &verlet);
    assert_eq!(state.particles, free.particles);
}

#[test]
fn a_particle_that_crosses_just_beside_the_arc_is_turned_back() {
    let mut state = State::new();
    state.add_particle(outbound(0.41));
    state.add_constraint(gate(0.2, 0.4));
    state.single_step(s(1.0), &verlet);
    let p = &state.particles[0];
    assert!((distance(p) - 0.9375).abs() < 1.0e-5, "at distance {}", distance(p));
    assert!(g(p.last_position).length() > distance(p));
    let mut before = State::new();
    before.add_particle(outbound(0.19));
    before.add_constraint(gate(0.2, 0.4));
    before.single_step(s(1.0), &verlet);
    assert!((distance(&before.particles[0]) - 0.9375).abs() < 1.0e-5);
}

#[test]
fn an_arc_through_the_angle_zero_is_open_on_both_sides_of_it() {
    for (angle, open) in [(6.1f32, true), (0.0, true), (0.3, true), (0.5, false), (3.0, false), (5.7, false)] {
        let mut state = State::new();
        state.add_particle(outbound(angle));
        state.add_constraint(gate(5.8, 0.4));
        state.single_step(s(1.0), &verlet);
        let passed = distance(&state.particles[0]) > 0.99;
        assert_eq!(passed, open, "angle {}", angle);
    }
}

#[test]
fn a_gate_whose_rays_are_one_is_open_all_round() {
    for angle in [0.0f32, 0.5, 1.0, 2.0, 3.0, 4.0, 5.0, 6.0] {
        let mut state = State::new();
        state.add_particle(outbound(angle));
        state.add_constraint(gate(1.0, 1.0));
        state.single_step(s(1.0), &verlet);
        assert!(distance(&state.particles[0]) > 0.99, "angle {}", angle);
    }
}

#[test]
fn a_verdict_to_pass_leaves_every_bit_of_a_particle() {
    let mut p = Particle::new(v(f32::NAN, -0.0), s(0.05), RED);
    p.last_position = v(1.0e-45, f32::INFINITY);
    let before = p;
    let never = |_: Particle, _: GateVerdict| -> Particle { panic!("a passing particle is not clamped") };
    apply_verdict(&mut p, GateVerdict::Pass, &never);
    assert_eq!(p, before);
    let marked = |mut q: Particle, verdict: GateVerdict| {
        q.radius = s(if verdict == GateVerdict::ClampInside { 1.0 } else { 2.0 });
        q
    };
    apply_verdict(&mut p, GateVerdict::ClampInside, &marked);
    assert_eq!(p.radius, s(1.0));
    assert_eq!(p.position, before.position);
    apply_verdict(&mut p, GateVerdict::ClampOutside, &marked);
    assert_eq!(p.radius, s(2.0));
}

#[test]
fn a_particle_that_rests_at_the_wall_is_left_alone() {
    let gate = gate(0.2, 0.4);
    let direction = glam::vec2(2.0f32.cos(), 2.0f32.sin());
    let mut resting = Particle::new(back(direction * 0.9375), s(0.05), RED);
    let at_start = resting;
    gate.constrain(&mut resting);
    assert_eq!(resting, at_start);
    let mut inbound = Particle::new(back(direction * 1.0625), s(0.05), RED);
    inbound.last_position = back(direction * 1.2);
    gate.constrain(&mut inbound);
    assert!((distance(&inbound) - 1.0625).abs() < 1.0e-6);
    assert!(g(inbound.last_position).length() < 1.0625);
}

#[test]
fn repeating_a_gate_within_a_step_corrects_once() {
    let gate = gate(0.2, 0.4);
    let direction = glam::vec2(2.0f32.cos(), 2.0f32.sin());
    let mut p = Particle::new(back(direction * 1.0), s(0.05), RED);
    p.last_position = back(direction * 0.9);
    gate.constrain(&mut p);
    let once = p;
    gate.constrain(&mut p);
    assert_eq!(p, once);
}

#[test]
fn one_second_of_falling_stays_inside_the_circle() {
    let mut state = falling(0.25);
    state.particles[0].radius = s(0.1);
    state.add_constraint(circle(1.0, 1.0));
    for _ in 0..60 {
        state.single_step(s(1.0 / 60.0), &verlet);
        assert!(distance(&state.particles[0]) <= 1.0 - 0.1);
    }
    let y = f(state.particles[0].position.y);
    assert!((y - 0.127).abs() < 1.0e-3, "fell to {}", y);
}
