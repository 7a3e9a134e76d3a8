//! Application events and the event bus.
//!
//! The bus decouples UI-originated actions from backend execution: emitters
//! enqueue events, and a single dispatch loop delivers each event to every
//! registered listener, in registration order, strictly FIFO across the
//! whole bus.

use vstd::prelude::*;

use crate::error::{CoreError, CoreErrorV};
use crate::pg_response::{push_deep, PgResponse, ResponseV};

verus! {

// ---------------------------------------------------------------------------
// Events
// ---------------------------------------------------------------------------

/// UI-level intents.
#[derive(Debug, Clone, Copy, PartialEq, Eq, Structural)]
pub enum AppAction {
    FetchRows,
}

impl DeepView for AppAction {
    type V = AppAction;

    open spec fn deep_view(&self) -> AppAction {
        *self
    }
}

/// Which renderer the output pane should use.
#[derive(Debug, Clone, Copy, PartialEq, Eq, Structural)]
pub enum OutputModeChange {
    TabularRaw,
    Csv,
    Tabular,
}

impl DeepView for OutputModeChange {
    type V = OutputModeChange;

    open spec fn deep_view(&self) -> OutputModeChange {
        *self
    }
}

/// Ghost model of a [`PgRequest`].
pub ghost struct RequestV {
    pub id: usize,
    pub text: Seq<char>,
}

/// A query request: the session slot it is addressed to and the SQL text.
#[derive(Debug, PartialEq, Eq)]
pub struct PgRequest {
    pub id: usize,
    pub text: String,
}

impl DeepView for PgRequest {
    type V = RequestV;

    open spec fn deep_view(&self) -> RequestV {
        RequestV { id: self.id, text: self.text@ }
    }
}

impl Clone for PgRequest {
    fn clone(&self) -> (res: Self)
        ensures
            res.deep_view() == self.deep_view(),
    {
        PgRequest { id: self.id, text: self.text.clone() }
    }
}

/// Ghost model of a [`SideMessage`].
pub ghost enum SideMessageV {
    Notice(Seq<char>),
    Notification { process_id: i32, channel: Seq<char>, payload: Seq<char> },
}

/// An out-of-band server message: a notice, or an asynchronous notification
/// with its sender's process id, channel and payload.
#[derive(Debug, PartialEq, Eq)]
pub enum SideMessage {
    Notice(String),
    Notification { process_id: i32, channel: String, payload: String },
}

impl DeepView for SideMessage {
    type V = SideMessageV;

    open spec fn deep_view(&self) -> SideMessageV {
        match self {
            SideMessage::Notice(text) => SideMessageV::Notice(text@),
            SideMessage::Notification { process_id, channel, payload } => {
                SideMessageV::Notification {
                    process_id: *process_id,
                    channel: channel@,
                    payload: payload@,
                }
            },
        }
    }
}

impl Clone for SideMessage {
    fn clone(&self) -> (res: Self)
        ensures
            res.deep_view() == self.deep_view(),
    {
        match self {
            SideMessage::Notice(text) => SideMessage::Notice(text.clone()),
            SideMessage::Notification { process_id, channel, payload } => {
                SideMessage::Notification {
                    process_id: *process_id,
                    channel: channel.clone(),
                    payload: payload.clone(),
                }
            },
        }
    }
}

/// Ghost model of an [`AppEvent`].
pub ghost enum EventV {
    Started,
    AppAction(AppAction),
    PgRequest(RequestV),
    PgMessage(SideMessageV),
    PgResponses { id: usize, responses: Seq<ResponseV> },
    OutputModeChanged(OutputModeChange),
    Error(CoreErrorV),
}

/// One event on the bus. Events are immutable value objects; every listener
/// sees each delivered event.
#[derive(Debug, PartialEq, Eq)]
pub enum AppEvent {
    Started,
    AppAction(AppAction),
    PgRequest(PgRequest),
    PgMessage(SideMessage),
    PgResponses { id: usize, responses: Vec<PgResponse> },
    OutputModeChanged(OutputModeChange),
    Error(CoreError),
}

impl DeepView for AppEvent {
    type V = EventV;

    open spec fn deep_view(&self) -> EventV {
        match self {
            AppEvent::Started => EventV::Started,
            AppEvent::AppAction(a) => EventV::AppAction(*a),
            AppEvent::PgRequest(r) => EventV::PgRequest(r.deep_view()),
            AppEvent::PgMessage(m) => EventV::PgMessage(m.deep_view()),
            AppEvent::PgResponses { id, responses } => EventV::PgResponses {
                id: *id,
                responses: responses.deep_view(),
            },
            AppEvent::OutputModeChanged(m) => EventV::OutputModeChanged(*m),
            AppEvent::Error(e) => EventV::Error(e.deep_view()),
        }
    }
}

impl Clone for AppEvent {
    fn clone(&self) -> (res: Self)
        ensures
            res.deep_view() == self.deep_view(),
    {
        match self {
            AppEvent::Started => AppEvent::Started,
            AppEvent::AppAction(a) => AppEvent::AppAction(*a),
            AppEvent::PgRequest(r) => AppEvent::PgRequest(r.clone()),
            AppEvent::PgMessage(m) => AppEvent::PgMessage(m.clone()),
            AppEvent::PgResponses { id, responses } => {
                let mut rs: Vec<PgResponse> = Vec::new();
                proof {
                    assert(rs.deep_view() =~= responses.deep_view().take(0));
                }
                let mut i: usize = 0;
                while i < responses.len()
                    invariant
                        i <= responses.len(),
                        rs.deep_view() == responses.deep_view().take(i as int),
                    decreases responses.len() - i,
                {
                    push_deep(&mut rs, responses[i].clone());
                    proof {
                        assert(responses.deep_view()[i as int] == responses@[
                            i as int
                        ].deep_view());
                        assert(rs.deep_view() =~= responses.deep_view().take(i + 1));
                    }
                    i += 1;
                }
                proof {
                    assert(responses.deep_view().take(responses@.len() as int)
                        =~= responses.deep_view());
                }
                AppEvent::PgResponses { id: *id, responses: rs }
            },
            AppEvent::OutputModeChanged(m) => AppEvent::OutputModeChanged(*m),
            AppEvent::Error(e) => AppEvent::Error(e.clone()),
        }
    }
}

// ---------------------------------------------------------------------------
// Listeners
// ---------------------------------------------------------------------------

/// A subscriber of the bus. `observed` is the ghost record of every event
/// the listener has been handed, in delivery order; `on_event` extends it by
/// exactly the delivered event.
pub trait EventListener: Sized {
    spec fn observed(&self) -> Seq<EventV>;

    fn on_event(&mut self, event: &AppEvent)
        ensures
            final(self).observed() == old(self).observed().push(event.deep_view()),
    ;
}

/// A listener that keeps every event it is handed. The stored vector is the
/// observation record itself, so a test can check delivery and order.
pub struct RecordingListener {
    pub events: Vec<AppEvent>,
}

impl RecordingListener {
    pub fn new() -> (r: Self)
        ensures
            r.observed() == Seq::<EventV>::empty(),
    {
        let r = RecordingListener { events: Vec::new() };
        proof {
            assert(r.events.deep_view() =~= Seq::<EventV>::empty());
        }
        r
    }
}

impl EventListener for RecordingListener {
    open spec fn observed(&self) -> Seq<EventV> {
        self.events.deep_view()
    }

    fn on_event(&mut self, event: &AppEvent)
        ensures
            final(self).observed() == old(self).observed().push(event.deep_view()),
    {
        push_deep(&mut self.events, event.clone());
    }
}

// ---------------------------------------------------------------------------
// The dispatcher
// ---------------------------------------------------------------------------

/// The event bus: a FIFO queue of pending events and the registered
/// listeners.
///
/// `emit` enqueues and returns immediately; delivery happens on the dispatch
/// loop, which hands each event to every listener in registration order
/// before taking the next event. A listener registered mid-stream receives
/// every event delivered from that point on.
pub struct EventDispatcher<L> {
    listeners: Vec<L>,
    pending: Vec<AppEvent>,
    closed: bool,
    log: Ghost<Seq<EventV>>,
    regs: Ghost<Seq<int>>,
}

impl<L: EventListener> EventDispatcher<L> {
    /// Every event ever emitted on this bus, in emission order.
    pub closed spec fn emitted(&self) -> Seq<EventV> {
        self.log@
    }

    /// How many events have been delivered to the listeners so far.
    pub closed spec fn num_delivered(&self) -> int {
        self.log@.len() - self.pending@.len()
    }

    /// How many events still wait in the queue.
    pub closed spec fn num_pending(&self) -> int {
        self.pending@.len() as int
    }

    pub closed spec fn num_listeners(&self) -> int {
        self.listeners@.len() as int
    }

    /// What listener `i` has observed so far, in delivery order.
    pub closed spec fn listener_observed(&self, i: int) -> Seq<EventV> {
        self.listeners@[i].observed()
    }

    /// The delivery position at which listener `i` was registered.
    pub closed spec fn registered_at(&self, i: int) -> int {
        self.regs@[i]
    }

    pub closed spec fn is_closed(&self) -> bool {
        self.closed
    }

    /// The bus invariant: the queue is exactly the undelivered tail of the
    /// emission log, and every listener has observed exactly the events
    /// delivered since its registration, in order.
    pub closed spec fn wf(&self) -> bool {
        &&& self.pending@.len() <= self.log@.len()
        &&& self.pending.deep_view() == self.log@.skip(self.num_delivered())
        &&& self.regs@.len() == self.listeners@.len()
        &&& forall|i: int|
            0 <= i < self.listeners@.len() ==> 0 <= #[trigger] self.regs@[i]
                <= self.num_delivered()
        &&& forall|i: int|
            0 <= i < self.listeners@.len() ==> #[trigger] self.listeners@[i].observed()
                == self.log@.subrange(self.regs@[i], self.num_delivered())
    }

    pub fn create() -> (d: Self)
        ensures
            d.wf(),
            d.emitted() == Seq::<EventV>::empty(),
            d.num_listeners() == 0,
            d.num_pending() == 0,
            !d.is_closed(),
    {
        let d = EventDispatcher {
            listeners: Vec::new(),
            pending: Vec::new(),
            closed: false,
            log: Ghost(Seq::empty()),
            regs: Ghost(Seq::empty()),
        };
        proof {
            assert(d.pending.deep_view() =~= d.log@.skip(0));
        }
        d
    }

    /// Add a subscriber that receives every subsequently delivered event.
    pub fn register_listener(&mut self, listener: L)
        requires
            old(self).wf(),
            listener.observed() == Seq::<EventV>::empty(),
        ensures
            final(self).wf(),
            final(self).emitted() == old(self).emitted(),
            final(self).num_pending() == old(self).num_pending(),
            final(self).is_closed() == old(self).is_closed(),
            final(self).num_listeners() == old(self).num_listeners() + 1,
            forall|i: int|
                0 <= i < old(self).num_listeners() ==> #[trigger] final(self).listener_observed(i)
                    == old(self).listener_observed(i) && final(self).registered_at(i) == old(
                    self,
                ).registered_at(i),
            final(self).registered_at(old(self).num_listeners()) == old(self).num_delivered(),
    {
        self.listeners.push(listener);
        proof {
            self.regs@ = self.regs@.push(self.num_delivered());
            assert(self.log@.subrange(self.num_delivered(), self.num_delivered())
                =~= Seq::<EventV>::empty());
        }
    }

    /// Enqueue an event; delivery happens later on the dispatch loop. The
    /// bus must not have been closed.
    pub fn emit(&mut self, event: AppEvent)
        requires
            old(self).wf(),
            !old(self).is_closed(),
        ensures
            final(self).wf(),
            final(self).emitted() == old(self).emitted().push(event.deep_view()),
            final(self).num_pending() == old(self).num_pending() + 1,
            final(self).num_listeners() == old(self).num_listeners(),
            final(self).is_closed() == old(self).is_closed(),
            forall|i: int|
                0 <= i < old(self).num_listeners() ==> #[trigger] final(self).listener_observed(i)
                    == old(self).listener_observed(i) && final(self).registered_at(i) == old(
                    self,
                ).registered_at(i),
    {
        let ghost v = event.deep_view();
        push_deep(&mut self.pending, event);
        proof {
            self.log@ = self.log@.push(v);
            assert(self.pending.deep_view() =~= self.log@.skip(self.num_delivered()));
            assert(forall|i: int|
                0 <= i < self.listeners@.len() ==> #[trigger] self.log@.subrange(
                    self.regs@[i],
                    self.num_delivered(),
                ) =~= old(self).log@.subrange(self.regs@[i], old(self).num_delivered()));
        }
    }

    /// Like [`Self::emit`], but reports use after close as a dispatch error
    /// instead of requiring the caller to rule it out.
    pub fn try_emit(&mut self, event: AppEvent) -> (r: Result<(), CoreError>)
        requires
            old(self).wf(),
        ensures
            final(self).wf(),
            final(self).num_listeners() == old(self).num_listeners(),
            final(self).is_closed() == old(self).is_closed(),
            forall|i: int|
                0 <= i < old(self).num_listeners() ==> #[trigger] final(self).listener_observed(i)
                    == old(self).listener_observed(i) && final(self).registered_at(i) == old(
                    self,
                ).registered_at(i),
            match r {
                Ok(()) => !old(self).is_closed() && final(self).emitted() == old(
                    self,
                ).emitted().push(event.deep_view()) && final(self).num_pending() == old(
                    self,
                ).num_pending() + 1,
                Err(e) => old(self).is_closed() && e == CoreError::Dispatch && final(self).emitted()
                    == old(self).emitted() && final(self).num_pending() == old(self).num_pending(),
            },
    {
        if self.closed {
            Err(CoreError::Dispatch)
        } else {
            self.emit(event);
            Ok(())
        }
    }

    /// Close the bus's queue: later emissions are dispatch errors.
    pub fn close(&mut self)
        requires
            old(self).wf(),
        ensures
            final(self).wf(),
            final(self).is_closed(),
            final(self).emitted() == old(self).emitted(),
            final(self).num_pending() == old(self).num_pending(),
            final(self).num_listeners() == old(self).num_listeners(),
            forall|i: int|
                0 <= i < old(self).num_listeners() ==> #[trigger] final(self).listener_observed(i)
                    == old(self).listener_observed(i) && final(self).registered_at(i) == old(
                    self,
                ).registered_at(i),
    {
        self.closed = true;
    }

    /// Deliver the oldest pending event to every listener, in registration
    /// order.
    pub fn dispatch_next(&mut self)
        requires
            old(self).wf(),
            old(self).num_pending() > 0,
        ensures
            final(self).wf(),
            final(self).emitted() == old(self).emitted(),
            final(self).num_pending() == old(self).num_pending() - 1,
            final(self).num_listeners() == old(self).num_listeners(),
            final(self).is_closed() == old(self).is_closed(),
            forall|i: int|
                0 <= i < old(self).num_listeners() ==> #[trigger] final(self).registered_at(i)
                    == old(self).registered_at(i),
    {
        let ghost pre_delivered = self.num_delivered();
        let event = self.pending.remove(0);
        proof {
            assert(old(self).pending.deep_view()[0] == event.deep_view());
            assert(old(self).pending.deep_view()[0] == self.log@.skip(pre_delivered)[0]);
            assert(event.deep_view() == self.log@[pre_delivered]);
            assert forall|j: int| 0 <= j < self.pending@.len() implies self.pending.deep_view()[j]
                == self.log@.skip(pre_delivered + 1)[j] by {
                assert(self.pending@[j] == old(self).pending@[j + 1]);
                assert(old(self).pending.deep_view()[j + 1] == self.log@.skip(pre_delivered)[j
                    + 1]);
            }
            assert(self.pending.deep_view() =~= self.log@.skip(pre_delivered + 1));
        }
        let mut i: usize = 0;
        while i < self.listeners.len()
            invariant
                old(self).wf(),
                i <= self.listeners@.len(),
                self.listeners@.len() == old(self).listeners@.len(),
                self.pending@ == old(self).pending@.remove(0),
                self.pending.deep_view() == self.log@.skip(pre_delivered + 1),
                self.log@ == old(self).log@,
                self.regs@ == old(self).regs@,
                self.closed == old(self).closed,
                pre_delivered == old(self).num_delivered(),
                self.num_delivered() == pre_delivered + 1,
                event.deep_view() == self.log@[pre_delivered],
                forall|j: int|
                    0 <= j < i ==> #[trigger] self.listeners@[j].observed() == self.log@.subrange(
                        self.regs@[j],
                        pre_delivered + 1,
                    ),
                forall|j: int|
                    i <= j < self.listeners@.len() ==> #[trigger] self.listeners@[j].observed()
                        == self.log@.subrange(self.regs@[j], pre_delivered),
            decreases self.listeners@.len() - i,
        {
            let listener = &mut self.listeners[i];
            listener.on_event(&event);
            proof {
                assert(self.listeners@[i as int].observed() =~= self.log@.subrange(
                    self.regs@[i as int],
                    pre_delivered + 1,
                ));
            }
            i += 1;
        }
    }

    /// Read one registered listener, for inspection after dispatching.
    pub fn listener_at(&self, i: usize) -> (l: &L)
        requires
            0 <= i < self.num_listeners(),
        ensures
            l.observed() == self.listener_observed(i as int),
    {
        &self.listeners[i]
    }

    /// How many listeners are registered.
    pub fn listener_count(&self) -> (n: usize)
        ensures
            n == self.num_listeners(),
    {
        self.listeners.len()
    }

    /// The dispatch loop: deliver queued events, oldest first, until the
    /// queue is empty.
    pub fn listen(&mut self)
        requires
            old(self).wf(),
        ensures
            final(self).wf(),
            final(self).num_pending() == 0,
            final(self).emitted() == old(self).emitted(),
            final(self).num_listeners() == old(self).num_listeners(),
            final(self).is_closed() == old(self).is_closed(),
            forall|i: int|
                0 <= i < old(self).num_listeners() ==> #[trigger] final(self).registered_at(i)
                    == old(self).registered_at(i),
    {
        while self.pending.len() > 0
            invariant
                self.wf(),
                self.emitted() == old(self).emitted(),
                self.num_listeners() == old(self).num_listeners(),
                self.is_closed() == old(self).is_closed(),
                forall|i: int|
                    0 <= i < old(self).num_listeners() ==> #[trigger] self.registered_at(i) == old(
                        self,
                    ).registered_at(i),
            decreases self.pending@.len(),
        {
            self.dispatch_next();
        }
    }
}

/// Law of the bus: once the queue is drained, every listener that was
/// registered before the first delivery has observed the whole emission
/// history, in emission order. In particular no listener misses an event,
/// and none observes an event before an earlier-emitted one.
pub proof fn lemma_listeners_observe_all<L: EventListener>(d: &EventDispatcher<L>)
    requires
        d.wf(),
        d.num_pending() == 0,
        forall|i: int| 0 <= i < d.num_listeners() ==> #[trigger] d.registered_at(i) == 0,
    ensures
        forall|i: int|
            0 <= i < d.num_listeners() ==> #[trigger] d.listener_observed(i) == d.emitted(),
{
    assert forall|i: int|
        0 <= i < d.num_listeners() implies #[trigger] d.listener_observed(i) == d.emitted() by {
        assert(d.registered_at(i) == 0);
        assert(d.listener_observed(i) == d.emitted().subrange(
            d.registered_at(i),
            d.num_delivered(),
        ));
        assert(d.emitted().subrange(0, d.num_delivered()) =~= d.emitted());
    }
}

} // verus!
