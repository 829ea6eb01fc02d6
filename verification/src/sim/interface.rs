//! The foreground side: a local mirror of the frames the background has
//! confirmed, and the requests that keep it filled.
use crate::sim::channel::{Inbox, Outbox};
use crate::sim::event::{SimEvent, SimTrigger};
use crate::sim::manager::{SimulationCommand, SimulationResponse};
use crate::sim::{Constraint, SimulationState, StateView};
use std::collections::BTreeMap;
use vstd::prelude::*;

verus! {

/// `BTreeMap::split_off`: the map keeps its entries below `key`, and the
/// entries at `key` and above leave it for the map returned.
#[verifier::external_body]
fn split_off_from<V>(map: &mut BTreeMap<u32, V>, key: u32) -> (tail: BTreeMap<u32, V>)
    ensures
        final(map)@ == old(map)@.restrict(Set::new(|k: u32| k < key)),
        tail@ == old(map)@.restrict(Set::new(|k: u32| k >= key)),
{
    map.split_off(&key)
}

/// What the foreground knows of the background's cache.
pub struct Mirror<C, T, E> {
    /// The confirmed frames, by index.
    pub frames: Map<u32, StateView<C, T, E>>,
    /// The length of the background's cache when it last told.
    pub cached: u32,
}

impl<C, T, E> Mirror<C, T, E> {
    /// The mirror without its frames behind `index`.
    pub open spec fn truncated(self, index: u32) -> Self {
        Mirror { frames: self.frames.restrict(Set::new(|k: u32| k <= index)), cached: self.cached }
    }

    /// The mirror without any frame.
    pub open spec fn cleared(self) -> Self {
        Mirror { frames: Map::empty(), cached: self.cached }
    }

    /// The mirror after one reply has been applied.  A frame takes its
    /// place, over what was there.  A count becomes the known length, and
    /// the frames behind it are dropped.
    pub open spec fn absorbed(self, response: SimulationResponse<C, T, E>) -> Self {
        match response {
            SimulationResponse::Frame(index, state) => Mirror {
                frames: self.frames.insert(index, state@),
                cached: self.cached,
            },
            SimulationResponse::Cached(count) => Mirror {
                frames: self.frames.restrict(Set::new(|k: u32| k <= count)),
                cached: count,
            },
        }
    }

    /// The mirror after the replies have been applied, first to last.
    pub open spec fn absorbed_all(self, responses: Seq<SimulationResponse<C, T, E>>) -> Self
        decreases responses.len(),
    {
        if responses.len() == 0 {
            self
        } else {
            self.absorbed_all(responses.drop_last()).absorbed(responses.last())
        }
    }
}

/// The foreground's proxy for the simulation.  Its queries never wait:
/// they answer from the mirror, which fills as replies come in.
#[verifier::reject_recursive_types(C)]
#[verifier::reject_recursive_types(T)]
#[verifier::reject_recursive_types(E)]
pub struct SimulationInterface<C, T, E> {
    manager_tx: Outbox<SimulationCommand<C, T, E>>,
    manager_rx: Inbox<SimulationResponse<C, T, E>>,
    frame_cache: BTreeMap<u32, SimulationState<C, T, E>>,
    manager_cached: u32,
}

impl<C, T, E> View for SimulationInterface<C, T, E> {
    type V = Mirror<C, T, E>;

    closed spec fn view(&self) -> Mirror<C, T, E> {
        Mirror {
            frames: self.frame_cache@.map_values(|s: SimulationState<C, T, E>| s@),
            cached: self.manager_cached,
        }
    }
}

impl<C: Constraint, T: SimTrigger, E: SimEvent> SimulationInterface<C, T, E> {
    /// The commands offered to the background so far, first to last.
    pub closed spec fn offered(&self) -> Seq<SimulationCommand<C, T, E>> {
        self.manager_tx.offered()
    }

    /// The replies taken from the background so far, first to last.
    pub closed spec fn taken(&self) -> Seq<SimulationResponse<C, T, E>> {
        self.manager_rx.taken()
    }

    /// An interface with an empty mirror, which has offered and taken
    /// nothing yet.
    pub fn new(
        manager_tx: flume::Sender<SimulationCommand<C, T, E>>,
        manager_rx: flume::Receiver<SimulationResponse<C, T, E>>,
    ) -> (r: Self)
        ensures
            r@ == (Mirror::<C, T, E> { frames: Map::empty(), cached: 0 }),
            r.offered() == Seq::<SimulationCommand<C, T, E>>::empty(),
            r.taken() == Seq::<SimulationResponse<C, T, E>>::empty(),
    {
        let r = SimulationInterface {
            manager_tx: Outbox::new(manager_tx),
            manager_rx: Inbox::new(manager_rx),
            frame_cache: BTreeMap::new(),
            manager_cached: 0,
        };
        assert(r@.frames =~= Map::empty());
        r
    }

    /// Asks the background for frame `frame`.  The mirror changes only
    /// when the reply is applied.
    pub fn load_frame(&mut self, frame: u32)
        ensures
            final(self)@ == old(self)@,
            final(self).offered() == old(self).offered().push(SimulationCommand::RequestFrame(frame)),
            final(self).taken() == old(self).taken(),
    {
        let request = SimulationCommand::RequestFrame(frame);
        self.manager_tx.offer(request);
    }

    /// Asks the background for the length of its cache.
    pub fn load_cached(&mut self)
        ensures
            final(self)@ == old(self)@,
            final(self).offered() == old(self).offered().push(SimulationCommand::GetCached),
            final(self).taken() == old(self).taken(),
    {
        self.manager_tx.offer(SimulationCommand::GetCached);
    }

    /// Drops every mirrored frame behind `frame`.
    fn evict_after(&mut self, frame: u32)
        ensures
            final(self)@ == old(self)@.truncated(frame),
            final(self).offered() == old(self).offered(),
            final(self).taken() == old(self).taken(),
    {
        if frame < u32::MAX {
            let _ = split_off_from(&mut self.frame_cache, frame + 1);
        }
        assert(self@.frames =~= old(self)@.truncated(frame).frames);
    }

    /// Sends `state` to the background as frame `frame`, and drops at once
    /// every mirrored frame behind `frame`, as the background will.
    pub fn store_frame(&mut self, frame: u32, state: SimulationState<C, T, E>)
        ensures
            final(self)@ == old(self)@.truncated(frame),
            final(self).offered() == old(self).offered().push(
                SimulationCommand::StoreFrame(frame, state),
            ),
            final(self).taken() == old(self).taken(),
    {
        let request = SimulationCommand::StoreFrame(frame, state);
        self.evict_after(frame);
        self.manager_tx.offer(request);
    }

    /// Tells the background to empty its cache, and empties the mirror.
    pub fn clear_frame_cache(&mut self)
        ensures
            final(self)@ == old(self)@.cleared(),
            final(self).offered() == old(self).offered().push(SimulationCommand::ClearCache),
            final(self).taken() == old(self).taken(),
    {
        self.manager_tx.offer(SimulationCommand::ClearCache);
        self.frame_cache = BTreeMap::new();
        assert(self@.frames =~= Map::empty());
    }

    /// Empties the mirror; the background is not told.
    pub fn clear_local_cache(&mut self)
        ensures
            final(self)@ == old(self)@.cleared(),
            final(self).offered() == old(self).offered(),
            final(self).taken() == old(self).taken(),
    {
        self.frame_cache = BTreeMap::new();
        assert(self@.frames =~= Map::empty());
    }

    /// Applies one reply of the background to the mirror.
    pub fn apply_response(&mut self, response: SimulationResponse<C, T, E>)
        ensures
            final(self)@ == old(self)@.absorbed(response),
            final(self).offered() == old(self).offered(),
            final(self).taken() == old(self).taken(),
    {
        match response {
            SimulationResponse::Frame(idx, frame) => {
                let _ = self.frame_cache.insert(idx, frame);
                assert(self@.frames =~= old(self)@.frames.insert(idx, frame@));
            },
            SimulationResponse::Cached(count) => {
                self.manager_cached = count;
                self.evict_after(count);
            },
        }
    }

    /// Applies the replies to the mirror, first to last, so that of two
    /// frames for one index the later one stays.
    pub fn apply_responses(&mut self, responses: Vec<SimulationResponse<C, T, E>>)
        ensures
            final(self)@ == old(self)@.absorbed_all(responses@),
            final(self).offered() == old(self).offered(),
            final(self).taken() == old(self).taken(),
    {
        let ghost all = responses@;
        for response in it: responses
            invariant
                it.seq() == all,
                self@ == old(self)@.absorbed_all(all.take(it.index() as int)),
                self.offered() == old(self).offered(),
                self.taken() == old(self).taken(),
        {
            proof {
                assert(all.take(it.index() + 1).drop_last() =~= all.take(it.index() as int));
                assert(all.take(it.index() + 1).last() == response);
            }
            self.apply_response(response);
        }
        proof {
            assert(all.take(all.len() as int) =~= all);
        }
    }

    /// Takes every reply that waits in the queue and applies them to the
    /// mirror, oldest first.  It does not wait for replies: with an empty
    /// queue it returns at once, and nothing has changed.  It sends
    /// nothing.
    pub fn process_requests(&mut self)
        ensures
            final(self).offered() == old(self).offered(),
            exists|responses: Seq<SimulationResponse<C, T, E>>|
                {
                    &&& final(self).taken() == old(self).taken() + responses
                    &&& final(self)@ == #[trigger] old(self)@.absorbed_all(responses)
                },
    {
        let responses = self.manager_rx.take();
        let ghost taken = responses@;
        self.apply_responses(responses);
        proof {
            assert(self.taken() == old(self).taken() + taken);
            assert(self@ == old(self)@.absorbed_all(taken));
        }
    }

    /// The mirrored frame `frame`, if there is one.  Nothing is requested
    /// when there is none.
    pub fn try_get_frame(&mut self, frame: u32) -> (r: Option<&SimulationState<C, T, E>>)
        ensures
            final(self)@ == old(self)@,
            final(self).offered() == old(self).offered(),
            final(self).taken() == old(self).taken(),
            match r {
                Some(state) => old(self)@.frames.contains_key(frame) && state@ == old(self)@.frames[frame],
                None => !old(self)@.frames.contains_key(frame),
            },
    {
        self.frame_cache.get(&frame)
    }

    /// The length of the background's cache when it last told.
    pub fn get_cached(&mut self) -> (r: u32)
        ensures
            final(self)@ == old(self)@,
            final(self).offered() == old(self).offered(),
            final(self).taken() == old(self).taken(),
            r == old(self)@.cached,
    {
        self.manager_cached
    }
}

} // verus!
