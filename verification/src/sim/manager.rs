//! The background side: an append-only cache of frames, grown on demand.
use crate::sim::channel::{Inbox, Outbox};
use crate::sim::event::{SimEvent, SimTrigger};
use crate::sim::scalar::{Scalar, Vec2};
use crate::sim::{
    lemma_step_of_empty, lemma_steps_of_empty, step_relation, steps_relation, Constraint,
    SimulationState, StateView,
};
use vstd::prelude::*;

verus! {

/// What the foreground asks of the background.
pub enum SimulationCommand<C, T, E> {
    /// Compute the frame if need be and reply with it.
    RequestFrame(u32),
    /// Put this state at the index and discard every later frame.
    StoreFrame(u32, SimulationState<C, T, E>),
    /// Reply with the number of cached frames.
    GetCached,
    /// Discard every frame.
    ClearCache,
}

/// What the background answers.
pub enum SimulationResponse<C, T, E> {
    /// The frame at the index.
    Frame(u32, SimulationState<C, T, E>),
    /// The number of cached frames.
    Cached(u32),
}

/// The duration of one frame: one sixtieth, rounded to single precision.
pub const FRAME_DT_BITS: u32 = 0x3c88_8889;

/// The state that frame `k` of `frames` is stepped from: the frame before
/// it, or the empty state where there is none.
pub open spec fn seed<C, T, E>(frames: Seq<StateView<C, T, E>>, k: int) -> StateView<C, T, E> {
    if k <= 0 {
        StateView::empty()
    } else {
        frames[k - 1]
    }
}

/// `after` is `before` grown to at least `target` frames: no frame of
/// `before` is touched, and each frame added is one step from the frame
/// before it.
pub open spec fn grown<
    C: Constraint,
    T: SimTrigger,
    E: SimEvent,
    F: Fn(Vec2, Vec2, Vec2, Scalar) -> Vec2,
>(
    before: Seq<StateView<C, T, E>>,
    after: Seq<StateView<C, T, E>>,
    target: nat,
    dt: Scalar,
    integrate: F,
) -> bool {
    &&& after.len() == if before.len() >= target {
        before.len()
    } else {
        target
    }
    &&& forall|k: int| 0 <= k < before.len() ==> #[trigger] after[k] == before[k]
    &&& forall|k: int|
        before.len() <= k < after.len() ==> step_relation(
            seed(after, k),
            dt,
            integrate,
            #[trigger] after[k],
        )
}

/// `after` is `before` with `state` stored at `index`: the frames up to
/// `index` are kept, or grown where `before` was shorter, the frame at
/// `index` is `state`, and nothing lies behind it.
pub open spec fn stored<
    C: Constraint,
    T: SimTrigger,
    E: SimEvent,
    F: Fn(Vec2, Vec2, Vec2, Scalar) -> Vec2,
>(
    before: Seq<StateView<C, T, E>>,
    after: Seq<StateView<C, T, E>>,
    index: nat,
    state: StateView<C, T, E>,
    dt: Scalar,
    integrate: F,
) -> bool {
    &&& after.len() == index + 1
    &&& after[index as int] == state
    &&& forall|k: int| 0 <= k < index && k < before.len() ==> #[trigger] after[k] == before[k]
    &&& forall|k: int|
        before.len() <= k < index ==> step_relation(seed(after, k), dt, integrate, #[trigger] after[k])
}

/// `after` and `reply` are what carrying out `command` on the cache
/// `before` gives.
pub open spec fn handled<
    C: Constraint,
    T: SimTrigger,
    E: SimEvent,
    F: Fn(Vec2, Vec2, Vec2, Scalar) -> Vec2,
>(
    before: Seq<StateView<C, T, E>>,
    command: SimulationCommand<C, T, E>,
    after: Seq<StateView<C, T, E>>,
    reply: Option<SimulationResponse<C, T, E>>,
    dt: Scalar,
    integrate: F,
) -> bool {
    match command {
        SimulationCommand::RequestFrame(index) => {
            &&& grown(before, after, (index + 1) as nat, dt, integrate)
            &&& reply matches Some(SimulationResponse::Frame(i, state))
            &&& i == index
            &&& state@ == after[index as int]
        },
        SimulationCommand::StoreFrame(index, state) => {
            &&& stored(before, after, index as nat, state@, dt, integrate)
            &&& reply is None
        },
        SimulationCommand::GetCached => {
            &&& after == before
            &&& reply == Some(
                SimulationResponse::<C, T, E>::Cached((before.len() % 0x1_0000_0000) as u32),
            )
        },
        SimulationCommand::ClearCache => {
            &&& after.len() == 0
            &&& reply is None
        },
    }
}

/// The replies that one command calls for: its reply, or none.
pub open spec fn reply_seq<C, T, E>(reply: Option<SimulationResponse<C, T, E>>) -> Seq<
    SimulationResponse<C, T, E>,
> {
    match reply {
        Some(r) => seq![r],
        None => Seq::empty(),
    }
}

/// `after` and `replies` are what carrying out the commands on the cache
/// `before`, first to last, gives: each command works on the cache as
/// the commands before it left it, and the replies stand in the order of
/// the commands that called for them.
pub open spec fn handled_all<
    C: Constraint,
    T: SimTrigger,
    E: SimEvent,
    F: Fn(Vec2, Vec2, Vec2, Scalar) -> Vec2,
>(
    before: Seq<StateView<C, T, E>>,
    commands: Seq<SimulationCommand<C, T, E>>,
    after: Seq<StateView<C, T, E>>,
    replies: Seq<SimulationResponse<C, T, E>>,
    dt: Scalar,
    integrate: F,
) -> bool
    decreases commands.len(),
{
    if commands.len() == 0 {
        after == before && replies == Seq::<SimulationResponse<C, T, E>>::empty()
    } else {
        exists|
            mid: Seq<StateView<C, T, E>>,
            earlier: Seq<SimulationResponse<C, T, E>>,
            reply: Option<SimulationResponse<C, T, E>>,
        |
            {
                &&& handled_all(before, commands.drop_last(), mid, earlier, dt, integrate)
                &&& #[trigger] handled(mid, commands.last(), after, reply, dt, integrate)
                &&& replies == #[trigger] (earlier + reply_seq(reply))
            }
    }
}

/// The frames as mathematical values.
pub open spec fn views<C, T, E>(frames: Seq<SimulationState<C, T, E>>) -> Seq<StateView<C, T, E>> {
    frames.map_values(|s: SimulationState<C, T, E>| s@)
}

/// The owner of the frame cache.  Frame `i` is the state after `i` steps
/// of one frame's duration from the state last stored in front of it.
#[verifier::reject_recursive_types(C)]
#[verifier::reject_recursive_types(T)]
#[verifier::reject_recursive_types(E)]
pub struct SimulationManager<C, T, E, F> {
    frame_cache: Vec<SimulationState<C, T, E>>,
    frame_dt: Scalar,
    integrate: F,
    interface_tx: Outbox<SimulationResponse<C, T, E>>,
    interface_rx: Inbox<SimulationCommand<C, T, E>>,
}

impl<C, T, E, F> View for SimulationManager<C, T, E, F> {
    type V = Seq<StateView<C, T, E>>;

    /// The cached frames, first to last.
    closed spec fn view(&self) -> Seq<StateView<C, T, E>> {
        views(self.frame_cache@)
    }
}

impl<
    C: Constraint,
    T: SimTrigger,
    E: SimEvent,
    F: Fn(Vec2, Vec2, Vec2, Scalar) -> Vec2,
> SimulationManager<C, T, E, F> {
    /// The duration of the step between two frames.
    pub closed spec fn frame_dt(&self) -> Scalar {
        self.frame_dt
    }

    /// The integrator that moves the particles.
    pub closed spec fn integrator(&self) -> F {
        self.integrate
    }

    /// The replies offered to the foreground so far, first to last.
    pub closed spec fn sent(&self) -> Seq<SimulationResponse<C, T, E>> {
        self.interface_tx.offered()
    }

    /// The commands taken from the foreground so far, first to last.
    pub closed spec fn received(&self) -> Seq<SimulationCommand<C, T, E>> {
        self.interface_rx.taken()
    }

    /// The integrator accepts every input.
    pub closed spec fn wf(&self) -> bool {
        forall|p: Vec2, l: Vec2, g: Vec2, h: Scalar| self.integrate.requires((p, l, g, h))
    }

    /// A manager with an empty cache that steps at sixty frames a second.
    pub fn new(
        interface_tx: flume::Sender<SimulationResponse<C, T, E>>,
        interface_rx: flume::Receiver<SimulationCommand<C, T, E>>,
        integrate: F,
    ) -> (r: Self)
        requires
            forall|p: Vec2, l: Vec2, g: Vec2, h: Scalar| integrate.requires((p, l, g, h)),
        ensures
            r.wf(),
            r@ == Seq::<StateView<C, T, E>>::empty(),
            r.frame_dt() == (Scalar { bits: FRAME_DT_BITS }),
            r.integrator() == integrate,
            r.sent() == Seq::<SimulationResponse<C, T, E>>::empty(),
            r.received() == Seq::<SimulationCommand<C, T, E>>::empty(),
    {
        let r = SimulationManager {
            frame_cache: Vec::new(),
            frame_dt: Scalar::from_bits(FRAME_DT_BITS),
            integrate,
            interface_tx: Outbox::new(interface_tx),
            interface_rx: Inbox::new(interface_rx),
        };
        assert(r@ =~= Seq::empty());
        r
    }

    /// The number of cached frames.
    pub fn cached(&self) -> (r: usize)
        ensures
            r == self@.len(),
    {
        self.frame_cache.len()
    }

    /// Appends one frame: a copy of the last frame, or the empty state
    /// where the cache is empty, advanced by one step.
    pub fn run_frame(&mut self)
        requires
            old(self).wf(),
        ensures
            final(self).wf(),
            final(self).frame_dt() == old(self).frame_dt(),
            final(self).integrator() == old(self).integrator(),
            final(self).sent() == old(self).sent(),
            final(self).received() == old(self).received(),
            grown(
                old(self)@,
                final(self)@,
                (old(self)@.len() + 1) as nat,
                old(self).frame_dt(),
                old(self).integrator(),
            ),
    {
        let count = self.frame_cache.len();
        let mut frame = if count == 0 {
            SimulationState::new()
        } else {
            self.frame_cache[count - 1].clone()
        };
        assert(frame@ == seed(self@, count as int));
        frame.single_step(self.frame_dt, &self.integrate);
        self.frame_cache.push(frame);
        proof {
            assert(self@ =~= old(self)@.push(frame@));
        }
    }

    /// Grows the cache until it holds frame `frame`.
    fn grow_to(&mut self, frame: u32)
        requires
            old(self).wf(),
        ensures
            final(self).wf(),
            final(self).frame_dt() == old(self).frame_dt(),
            final(self).integrator() == old(self).integrator(),
            final(self).sent() == old(self).sent(),
            final(self).received() == old(self).received(),
            grown(
                old(self)@,
                final(self)@,
                (frame + 1) as nat,
                old(self).frame_dt(),
                old(self).integrator(),
            ),
    {
        while self.frame_cache.len() <= frame as usize
            invariant
                self.wf(),
                self.frame_dt() == old(self).frame_dt(),
                self.integrator() == old(self).integrator(),
                self.sent() == old(self).sent(),
                self.received() == old(self).received(),
                self@.len() == self.frame_cache.len(),
                self@.len() >= old(self)@.len(),
                self@.len() <= frame + 1 || self@.len() == old(self)@.len(),
                grown(
                    old(self)@,
                    self@,
                    self@.len(),
                    old(self).frame_dt(),
                    old(self).integrator(),
                ),
            decreases frame + 1 - self.frame_cache.len(),
        {
            self.run_frame();
        }
    }

    /// Frame `frame`, computed first if the cache does not reach it yet.
    pub fn get_frame(&mut self, frame: u32) -> (r: &SimulationState<C, T, E>)
        requires
            old(self).wf(),
        ensures
            final(self).wf(),
            final(self).frame_dt() == old(self).frame_dt(),
            final(self).integrator() == old(self).integrator(),
            final(self).sent() == old(self).sent(),
            final(self).received() == old(self).received(),
            grown(
                old(self)@,
                final(self)@,
                (frame + 1) as nat,
                old(self).frame_dt(),
                old(self).integrator(),
            ),
            r@ == final(self)@[frame as int],
    {
        self.grow_to(frame);
        &self.frame_cache[frame as usize]
    }

    /// The slot of frame `frame`, with every later frame discarded.  Where
    /// the cache does not reach `frame` yet, it is grown to it first.
    /// What the caller writes through the result becomes frame `frame`.
    pub fn get_frame_mut(&mut self, frame: u32) -> (r: &mut SimulationState<C, T, E>)
        requires
            old(self).wf(),
        ensures
            final(self).wf(),
            final(self).frame_dt() == old(self).frame_dt(),
            final(self).integrator() == old(self).integrator(),
            final(self).sent() == old(self).sent(),
            final(self).received() == old(self).received(),
            stored(
                old(self)@,
                final(self)@,
                frame as nat,
                final(r)@,
                old(self).frame_dt(),
                old(self).integrator(),
            ),
            frame < old(self)@.len() ==> r@ == old(self)@[frame as int],
            frame >= old(self)@.len() ==> step_relation(
                seed(final(self)@, frame as int),
                old(self).frame_dt(),
                old(self).integrator(),
                r@,
            ),
    {
        if (frame as usize) < self.frame_cache.len() {
            self.frame_cache.truncate(frame as usize + 1);
        }
        proof {
            assert(self@ =~= old(self)@.take(
                if frame < old(self)@.len() {
                    frame + 1
                } else {
                    old(self)@.len() as int
                },
            ));
        }
        self.grow_to(frame);
        proof {
            let frames = self.frame_cache@;
            let mid = self@;
            assert(mid[frame as int] == frames[frame as int]@);
            assert(frame < old(self)@.len() ==> mid[frame as int] == old(self)@[frame as int]);
            assert forall|x: StateView<C, T, E>|
                seed(#[trigger] mid.update(frame as int, x), frame as int) == seed(
                    mid,
                    frame as int,
                ) by {}
            assert forall|x: SimulationState<C, T, E>| #[trigger]
                views(frames.update(frame as int, x)) == views(frames).update(frame as int, x@) by {
                assert(views(frames.update(frame as int, x)) =~= views(frames).update(
                    frame as int,
                    x@,
                ));
            }
        }
        &mut self.frame_cache[frame as usize]
    }

    /// Carries out one command and returns the reply it calls for.
    pub fn handle_command(&mut self, command: SimulationCommand<C, T, E>) -> (reply: Option<
        SimulationResponse<C, T, E>,
    >)
        requires
            old(self).wf(),
        ensures
            final(self).wf(),
            final(self).frame_dt() == old(self).frame_dt(),
            final(self).integrator() == old(self).integrator(),
            final(self).sent() == old(self).sent(),
            final(self).received() == old(self).received(),
            handled(
                old(self)@,
                command,
                final(self)@,
                reply,
                old(self).frame_dt(),
                old(self).integrator(),
            ),
    {
        match command {
            SimulationCommand::RequestFrame(frame_idx) => {
                let frame = self.get_frame(frame_idx).clone();
                Some(SimulationResponse::Frame(frame_idx, frame))
            },
            SimulationCommand::StoreFrame(frame_idx, state) => {
                let frame = self.get_frame_mut(frame_idx);
                *frame = state;
                None
            },
            SimulationCommand::ClearCache => {
                self.frame_cache = Vec::new();
                None
            },
            SimulationCommand::GetCached => {
                let wide: u64 = self.frame_cache.len() as u64;
                let count: u32 = (wide % 0x1_0000_0000u64) as u32;
                Some(SimulationResponse::Cached(count))
            },
        }
    }

    /// Carries out the commands, first to last, and returns the replies
    /// they call for, in the order of the commands.
    pub fn handle_commands(&mut self, commands: Vec<SimulationCommand<C, T, E>>) -> (replies: Vec<
        SimulationResponse<C, T, E>,
    >)
        requires
            old(self).wf(),
        ensures
            final(self).wf(),
            final(self).frame_dt() == old(self).frame_dt(),
            final(self).integrator() == old(self).integrator(),
            final(self).sent() == old(self).sent(),
            final(self).received() == old(self).received(),
            handled_all(
                old(self)@,
                commands@,
                final(self)@,
                replies@,
                old(self).frame_dt(),
                old(self).integrator(),
            ),
    {
        let ghost all = commands@;
        let mut replies: Vec<SimulationResponse<C, T, E>> = Vec::new();
        for command in it: commands
            invariant
                it.seq() == all,
                self.wf(),
                self.frame_dt() == old(self).frame_dt(),
                self.integrator() == old(self).integrator(),
                self.sent() == old(self).sent(),
                self.received() == old(self).received(),
                handled_all(
                    old(self)@,
                    all.take(it.index() as int),
                    self@,
                    replies@,
                    old(self).frame_dt(),
                    old(self).integrator(),
                ),
        {
            let ghost mid = self@;
            let ghost earlier = replies@;
            let ghost done = all.take(it.index() as int);
            let ghost next = all.take(it.index() + 1);
            let answer = self.handle_command(command);
            proof {
                assert(next.drop_last() =~= done);
                assert(next.last() == command);
            }
            match answer {
                Some(reply) => {
                    replies.push(reply);
                    proof {
                        assert(replies@ =~= earlier + reply_seq(answer));
                    }
                },
                None => {
                    proof {
                        assert(replies@ =~= earlier + reply_seq(answer));
                    }
                },
            }
            proof {
                assert(handled_all(
                    old(self)@,
                    next.drop_last(),
                    mid,
                    earlier,
                    old(self).frame_dt(),
                    old(self).integrator(),
                ) && handled(
                    mid,
                    next.last(),
                    self@,
                    answer,
                    old(self).frame_dt(),
                    old(self).integrator(),
                ) && replies@ == earlier + reply_seq(answer));
            }
        }
        proof {
            assert(all.take(all.len() as int) =~= all);
        }
        replies
    }

    /// Takes every command that waits in the queue, carries them out,
    /// oldest first, and offers the replies to the foreground in that
    /// order.  It does not wait for commands: with an empty queue it
    /// returns at once, and nothing has changed.
    pub fn process_requests(&mut self)
        requires
            old(self).wf(),
        ensures
            final(self).wf(),
            final(self).frame_dt() == old(self).frame_dt(),
            final(self).integrator() == old(self).integrator(),
            exists|
                commands: Seq<SimulationCommand<C, T, E>>,
                replies: Seq<SimulationResponse<C, T, E>>,
            |
                {
                    &&& final(self).received() == old(self).received() + commands
                    &&& final(self).sent() == old(self).sent() + replies
                    &&& #[trigger] handled_all(
                        old(self)@,
                        commands,
                        final(self)@,
                        replies,
                        old(self).frame_dt(),
                        old(self).integrator(),
                    )
                },
    {
        let commands = self.interface_rx.take();
        let ghost taken = commands@;
        let replies = self.handle_commands(commands);
        let ghost answers = replies@;
        let ghost cache = self@;
        for reply in it: replies
            invariant
                it.seq() == answers,
                self.wf(),
                self.frame_dt() == old(self).frame_dt(),
                self.integrator() == old(self).integrator(),
                self.received() == old(self).received() + taken,
                self.sent() == old(self).sent() + answers.take(it.index() as int),
                self@ == cache,
        {
            proof {
                assert(answers.take(it.index() + 1) =~= answers.take(it.index() as int).push(reply));
                assert(old(self).sent() + answers.take(it.index() + 1) =~= (old(self).sent()
                    + answers.take(it.index() as int)).push(reply));
            }
            self.interface_tx.offer(reply);
        }
        proof {
            assert(answers.take(answers.len() as int) =~= answers);
            assert(old(self).sent() + Seq::<SimulationResponse<C, T, E>>::empty() =~= old(self).sent());
            assert(handled_all(
                old(self)@,
                taken,
                self@,
                answers,
                old(self).frame_dt(),
                old(self).integrator(),
            ));
        }
    }
}

/// Storing into a cache that reaches the index cuts it there: the frames
/// before the index stay, the stored state follows them, and nothing
/// follows the stored state.
pub proof fn lemma_store_truncates<
    C: Constraint,
    T: SimTrigger,
    E: SimEvent,
    F: Fn(Vec2, Vec2, Vec2, Scalar) -> Vec2,
>(
    before: Seq<StateView<C, T, E>>,
    after: Seq<StateView<C, T, E>>,
    index: nat,
    state: StateView<C, T, E>,
    dt: Scalar,
    integrate: F,
)
    requires
        index < before.len(),
        stored(before, after, index, state, dt, integrate),
    ensures
        after == before.take(index as int).push(state),
{
    assert(after =~= before.take(index as int).push(state));
}

/// A cache grown from nothing holds the empty state in every frame, for
/// nothing happens in the empty state: frame `k` is what `k` steps give
/// from the empty state, and what `k + 1` steps give as well.
pub proof fn lemma_grown_from_nothing<
    C: Constraint,
    T: SimTrigger,
    E: SimEvent,
    F: Fn(Vec2, Vec2, Vec2, Scalar) -> Vec2,
>(after: Seq<StateView<C, T, E>>, target: nat, dt: Scalar, integrate: F, k: int)
    requires
        grown(Seq::<StateView<C, T, E>>::empty(), after, target, dt, integrate),
        0 <= k < target,
    ensures
        after.len() == target,
        after[k] == StateView::<C, T, E>::empty(),
        steps_relation(StateView::<C, T, E>::empty(), k as nat, dt, integrate, after[k]),
    decreases k,
{
    if k > 0 {
        lemma_grown_from_nothing(after, target, dt, integrate, k - 1);
    }
    assert(seed(after, k) == StateView::<C, T, E>::empty());
    assert(step_relation(seed(after, k), dt, integrate, after[k]));
    lemma_step_of_empty(dt, integrate, after[k]);
    lemma_steps_of_empty(k as nat, dt, integrate, after[k]);
}

} // verus!
