//! The events the components of the world exchange, the keys they react to, and the
//! queue that hands each round's events to every component.
use vstd::prelude::*;
use crate::chunk_mesh::Length3D;
use crate::texture::TextureIdMapper;

verus! {

/// The direction the player faces.
#[derive(Copy, Clone, Debug, PartialEq, Eq, Structural)]
pub enum CardinalDir {
    EAST,
    SOUTH,
    WEST,
    NORTH,
    UNDEFINED,
}

/// A key of the keyboard, as far as the game tells keys apart.
#[derive(Copy, Clone, Debug, PartialEq, Eq, Structural)]
pub enum Key {
    W,
    A,
    S,
    D,
    LShift,
    Space,
    O,
    Other,
}

/// An event passed between the components of the world.
#[derive(Clone, Debug)]
pub enum WorldEvent {
    Tick,
    Start,
    NewTextureMapper(TextureIdMapper),
    LeftButtonPressed,
    LeftButtonReleased,
    RightButtonPressed,
    RightButtonReleased,
    MiddleButtonPressed,
    MiddleButtonReleased,
    KeyPressed(Key),
    KeyReleased(Key),
    UserFaceDir(CardinalDir),
    /// the player's position, in blocks
    UserPosition(Length3D),
    SpectatorMode(bool),
}

/// What the world does next in a round: a component responds to an event of the round,
/// a component is updated, or the round is over.
#[derive(Copy, Clone, Debug, PartialEq, Eq, Structural)]
pub enum Dispatch {
    /// the component (first index) responds to the event of the round (second index)
    Respond(usize, usize),
    /// the component is updated
    Update(usize),
    Done,
}

/// The step of a round of `n` components over `len` events at the component `c` and the
/// event `k`: each component responds to every event in order, and is then updated.
pub open spec fn dispatch_at(n: int, len: int, c: int, k: int) -> Dispatch {
    if c >= n {
        Dispatch::Done
    } else if k < len {
        Dispatch::Respond(c as usize, k as usize)
    } else {
        Dispatch::Update(c as usize)
    }
}

/// The event queue of the world and its place in the round. In each round every component,
/// in order, responds to each event of `events`, in order, and is then updated; the events
/// the components emit in a round, after those the window reported, are the events of the
/// next round.
pub struct World {
    pub events: Vec<WorldEvent>,
    pub events_buffer: Vec<WorldEvent>,
    /// how many components the world has
    pub components: usize,
    /// the component whose turn it is
    pub component: usize,
    /// the event of the round it responds to next
    pub event: usize,
}

impl World {
    pub open spec fn wf(&self) -> bool {
        &&& self.component <= self.components
        &&& self.event <= self.events@.len()
        &&& self.component == self.components ==> self.event == 0
    }

    /// The next step of the round.
    pub open spec fn next_step(&self) -> Dispatch {
        dispatch_at(self.components as int, self.events@.len() as int, self.component as int, self.event as int)
    }

    /// A world of `components` components whose first round has the single event `Start`.
    pub fn new(components: usize) -> (r: Self)
        ensures
            r.wf(),
            r.events@.len() == 1,
            r.events@[0] is Start,
            r.events_buffer@ == Seq::<WorldEvent>::empty(),
            r.components == components,
            r.component == 0 && r.event == 0,
    {
        World { events: vec![WorldEvent::Start], events_buffer: Vec::new(), components, component: 0, event: 0 }
    }

    /// The events the components respond to in this round.
    pub fn events(&self) -> (r: &Vec<WorldEvent>)
        ensures
            r@ == self.events@,
    {
        &self.events
    }

    /// What the world does next: which component responds to which event of the round, or
    /// which component is updated, or that the round is over.
    pub fn dispatch(&self) -> (r: Dispatch)
        requires
            self.wf(),
        ensures
            r == self.next_step(),
    {
        if self.component >= self.components {
            Dispatch::Done
        } else if self.event < self.events.len() {
            Dispatch::Respond(self.component, self.event)
        } else {
            Dispatch::Update(self.component)
        }
    }

    /// Queues an event the window reported for the next round.
    pub fn add_window_event(&mut self, e: WorldEvent)
        ensures
            final(self).events@ == old(self).events@,
            final(self).events_buffer@ == old(self).events_buffer@.push(e),
            final(self).components == old(self).components,
            final(self).component == old(self).component,
            final(self).event == old(self).event,
    {
        self.events_buffer.push(e);
    }

    /// Takes the events a component emitted in response to the event it was handed: they are
    /// queued for the next round, and the component moves on to the next event.
    pub fn respond(&mut self, emitted: Vec<WorldEvent>)
        requires
            old(self).wf(),
            old(self).next_step() is Respond,
        ensures
            final(self).wf(),
            final(self).events@ == old(self).events@,
            final(self).events_buffer@ == old(self).events_buffer@ + emitted@,
            final(self).components == old(self).components,
            final(self).component == old(self).component,
            final(self).event == old(self).event + 1,
    {
        let mut emitted = emitted;
        self.events_buffer.append(&mut emitted);
        let len = self.events.len();
        assert(self.event < len);
        self.event = self.event + 1;
    }

    /// Records that the component whose turn it was has been updated: the next component
    /// takes its turn.
    pub fn component_updated(&mut self)
        requires
            old(self).wf(),
            old(self).next_step() is Update,
        ensures
            final(self).wf(),
            final(self).events@ == old(self).events@,
            final(self).events_buffer@ == old(self).events_buffer@,
            final(self).components == old(self).components,
            final(self).component == old(self).component + 1,
            final(self).event == 0,
    {
        self.component = self.component + 1;
        self.event = 0;
    }

    /// Ends the round once every component has had its turn: the queued events, the
    /// window's and the components', in the order they came, are the next round's events,
    /// the queue starts empty, and the first component takes its turn.
    pub fn update(&mut self)
        requires
            old(self).wf(),
            old(self).next_step() is Done,
        ensures
            final(self).wf(),
            final(self).events@ == old(self).events_buffer@,
            final(self).events_buffer@ == Seq::<WorldEvent>::empty(),
            final(self).components == old(self).components,
            final(self).component == 0 && final(self).event == 0,
    {
        self.events = Vec::new();
        self.events.append(&mut self.events_buffer);
        self.component = 0;
        self.event = 0;
    }
}

/// Every round hands each event to each component once, component after component, and
/// updates each component after its last event: the step after a response is the next
/// event of the same component, or its update once the events run out; the step after an
/// update is the next component's first event (or its update, in a round without events),
/// or the end of the round after the last component.
pub proof fn lemma_round_order(n: int, len: int, c: int, k: int)
    requires
        0 <= c < n,
        0 <= k <= len,
    ensures
        k < len ==> dispatch_at(n, len, c, k) == Dispatch::Respond(c as usize, k as usize)
            && dispatch_at(n, len, c, k + 1) == if k + 1 < len { Dispatch::Respond(c as usize, (k + 1) as usize) } else { Dispatch::Update(c as usize) },
        k == len ==> dispatch_at(n, len, c, k) == Dispatch::Update(c as usize)
            && dispatch_at(n, len, c + 1, 0) == if c + 1 == n { Dispatch::Done } else if len > 0 {
                Dispatch::Respond((c + 1) as usize, 0) } else { Dispatch::Update((c + 1) as usize) },
{
}

} // verus!
