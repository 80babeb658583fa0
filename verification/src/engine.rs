//! The streaming engine's life cycle: which state follows which event, and
//! what the host is to do next. The host performs the actions and reports
//! back with events; nothing here waits or performs I/O.

use vstd::prelude::*;

verus! {

/// Where the engine is in its life cycle.
#[derive(Debug, Clone, Copy, PartialEq, Eq, Structural)]
pub enum EngineState {
    Stopped,
    Initializing,
    Running,
    Stopping,
}

/// What the host reports to the engine.
#[derive(Debug, Clone, Copy, PartialEq, Eq, Structural)]
pub enum EngineEvent {
    /// The host asks the engine to start.
    Start,
    /// The work asked for by `Initialize` is done.
    Initialized,
    /// Initialization was aborted, as on a missing setting.
    InitializationFailed,
    /// The host asks the engine to stop.
    StopRequested,
    /// The inbound channel failed and cannot be recovered.
    ChannelFailed,
    /// The work asked for by `Shutdown` is done.
    Drained,
}

/// What the host is to do after an event.
#[derive(Debug, Clone, Copy, PartialEq, Eq, Structural)]
pub enum EngineAction {
    /// Nothing: the event does not apply in the current state.
    Ignore,
    /// Connect the adapters, and warm up every watched key, as flagged; then
    /// report `Initialized`.
    Initialize { connect_adapters: bool, warm_up: bool },
    /// Subscribe to the watchlists and drain the inbound channel, as
    /// flagged; with neither, stay idle until asked to stop.
    Run { subscribe: bool, drain: bool },
    /// Stop taking ticks, flush the sink writes in flight and, if flagged,
    /// release the adapters; then report `Drained`.
    Shutdown { disconnect_adapters: bool },
    /// Nothing more: the engine has stopped.
    Finished,
}

/// How the engine was configured.
#[derive(Debug, Clone, Copy, PartialEq, Eq, Structural)]
pub struct EngineMode {
    /// No live feed: adapters are left alone and no tick is drained.
    pub offline: bool,
    /// Whether keys are primed from history before live ticks.
    pub backfill: bool,
}

impl EngineAction {
    /// Whether the action has the host connect or subscribe an adapter.
    pub open spec fn calls_adapters(self) -> bool {
        match self {
            EngineAction::Initialize { connect_adapters, .. } => connect_adapters,
            EngineAction::Run { subscribe, .. } => subscribe,
            _ => false,
        }
    }

    /// Whether the action has the host release an adapter.
    pub open spec fn releases_adapters(self) -> bool {
        match self {
            EngineAction::Shutdown { disconnect_adapters } => disconnect_adapters,
            _ => false,
        }
    }

    /// Whether the action starts the drain loop.
    pub open spec fn starts_drain(self) -> bool {
        match self {
            EngineAction::Run { drain, .. } => drain,
            _ => false,
        }
    }

    /// Whether the action has the host replay history.
    pub open spec fn warms_up(self) -> bool {
        match self {
            EngineAction::Initialize { warm_up, .. } => warm_up,
            _ => false,
        }
    }
}

/// The state after `event`, and the action for the host.
pub open spec fn step_spec(mode: EngineMode, state: EngineState, event: EngineEvent) -> (
    EngineState,
    EngineAction,
) {
    match (state, event) {
        (EngineState::Stopped, EngineEvent::Start) => (
            EngineState::Initializing,
            EngineAction::Initialize {
                connect_adapters: !mode.offline,
                warm_up: !mode.offline && mode.backfill,
            },
        ),
        (EngineState::Initializing, EngineEvent::Initialized) => (
            EngineState::Running,
            EngineAction::Run { subscribe: !mode.offline, drain: !mode.offline },
        ),
        (EngineState::Initializing, EngineEvent::InitializationFailed) => (
            EngineState::Stopping,
            EngineAction::Shutdown { disconnect_adapters: !mode.offline },
        ),
        (EngineState::Initializing, EngineEvent::StopRequested) => (
            EngineState::Stopping,
            EngineAction::Shutdown { disconnect_adapters: !mode.offline },
        ),
        (EngineState::Running, EngineEvent::StopRequested) => (
            EngineState::Stopping,
            EngineAction::Shutdown { disconnect_adapters: !mode.offline },
        ),
        (EngineState::Running, EngineEvent::ChannelFailed) => (
            EngineState::Stopping,
            EngineAction::Shutdown { disconnect_adapters: !mode.offline },
        ),
        (EngineState::Stopping, EngineEvent::Drained) => (
            EngineState::Stopped,
            EngineAction::Finished,
        ),
        _ => (state, EngineAction::Ignore),
    }
}

/// The state after the events `events`, in order.
pub open spec fn state_after(mode: EngineMode, state: EngineState, events: Seq<EngineEvent>)
    -> EngineState
    decreases events.len(),
{
    if events.len() == 0 {
        state
    } else {
        step_spec(mode, state_after(mode, state, events.drop_last()), events.last()).0
    }
}

/// The action that the last of `events` gives.
pub open spec fn last_action(mode: EngineMode, state: EngineState, events: Seq<EngineEvent>)
    -> EngineAction
    recommends
        events.len() > 0,
{
    step_spec(mode, state_after(mode, state, events.drop_last()), events.last()).1
}

/// The streaming engine's life cycle.
#[derive(Debug)]
pub struct Engine {
    mode: EngineMode,
    state: EngineState,
}

impl Engine {
    /// How the engine was configured.
    pub closed spec fn mode_spec(&self) -> EngineMode {
        self.mode
    }

    /// Where the engine is in its life cycle.
    pub closed spec fn state_spec(&self) -> EngineState {
        self.state
    }

    /// Makes a stopped engine.
    pub fn new(mode: EngineMode) -> (e: Engine)
        ensures
            e.mode_spec() == mode,
            e.state_spec() == EngineState::Stopped,
    {
        Engine { mode, state: EngineState::Stopped }
    }

    /// How the engine was configured.
    pub fn mode(&self) -> (m: EngineMode)
        ensures
            m == self.mode_spec(),
    {
        self.mode
    }

    /// Where the engine is in its life cycle.
    pub fn state(&self) -> (s: EngineState)
        ensures
            s == self.state_spec(),
    {
        self.state
    }

    /// Whether the engine takes ticks now: it is running and has a live feed.
    pub fn accepts_ticks(&self) -> (b: bool)
        ensures
            b == (self.state_spec() == EngineState::Running && !self.mode_spec().offline),
    {
        self.state == EngineState::Running && !self.mode.offline
    }

    /// Takes an event: moves to the state that follows and returns what the
    /// host is to do next. An event that does not apply in the current state
    /// changes nothing and is answered with `Ignore`.
    pub fn step(&mut self, event: EngineEvent) -> (action: EngineAction)
        ensures
            final(self).mode_spec() == old(self).mode_spec(),
            (final(self).state_spec(), action) == step_spec(
                old(self).mode_spec(),
                old(self).state_spec(),
                event,
            ),
    {
        let live = !self.mode.offline;
        let (next, action) = match (self.state, event) {
            (EngineState::Stopped, EngineEvent::Start) => (
                EngineState::Initializing,
                EngineAction::Initialize {
                    connect_adapters: live,
                    warm_up: live && self.mode.backfill,
                },
            ),
            (EngineState::Initializing, EngineEvent::Initialized) => (
                EngineState::Running,
                EngineAction::Run { subscribe: live, drain: live },
            ),
            (EngineState::Initializing, EngineEvent::InitializationFailed) => (
                EngineState::Stopping,
                EngineAction::Shutdown { disconnect_adapters: live },
            ),
            (EngineState::Initializing, EngineEvent::StopRequested) => (
                EngineState::Stopping,
                EngineAction::Shutdown { disconnect_adapters: live },
            ),
            (EngineState::Running, EngineEvent::StopRequested) => (
                EngineState::Stopping,
                EngineAction::Shutdown { disconnect_adapters: live },
            ),
            (EngineState::Running, EngineEvent::ChannelFailed) => (
                EngineState::Stopping,
                EngineAction::Shutdown { disconnect_adapters: live },
            ),
            (EngineState::Stopping, EngineEvent::Drained) => (
                EngineState::Stopped,
                EngineAction::Finished,
            ),
            (state, _) => (state, EngineAction::Ignore),
        };
        self.state = next;
        action
    }

    /// Takes the report of a fault: the engine moves as [`fault_event`] says,
    /// and the host learns how to go on. Only a fault that stops progress
    /// changes the state.
    pub fn report(&mut self, fault: Fault) -> (r: (Disposition, EngineAction))
        ensures
            final(self).mode_spec() == old(self).mode_spec(),
            r.0 == disposition_of(fault),
            match fault_event(fault) {
                Some(event) => (final(self).state_spec(), r.1) == step_spec(
                    old(self).mode_spec(),
                    old(self).state_spec(),
                    event,
                ),
                None => final(self).state_spec() == old(self).state_spec() && r.1
                    == EngineAction::Ignore,
            },
    {
        let action = match fault {
            Fault::Configuration | Fault::InvalidParameter => self.step(
                EngineEvent::InitializationFailed,
            ),
            Fault::ChannelClosed | Fault::LockPoisoned => self.step(EngineEvent::ChannelFailed),
            Fault::Adapter | Fault::MalformedTick | Fault::SinkWrite => EngineAction::Ignore,
        };
        (disposition(fault), action)
    }
}

/// What can go wrong while the engine starts or runs.
#[derive(Debug, Clone, Copy, PartialEq, Eq, Structural)]
pub enum Fault {
    /// A required setting is missing.
    Configuration,
    /// One adapter failed to connect, subscribe or disconnect.
    Adapter,
    /// A record on the inbound channel is not a tick.
    MalformedTick,
    /// A write to the cache, the database or the outbound channel failed.
    SinkWrite,
    /// An indicator was asked for with bad parameters.
    InvalidParameter,
    /// The inbound channel closed or failed beyond recovery.
    ChannelClosed,
    /// A lock around shared state was poisoned.
    LockPoisoned,
}

/// How the host goes on after a fault.
#[derive(Debug, Clone, Copy, PartialEq, Eq, Structural)]
pub enum Disposition {
    /// Give up starting: the fault is fatal at start-up.
    AbortStartup,
    /// Log it and leave this adapter out; the others and the engine go on.
    SkipAdapter,
    /// Log it and drop the record; the drain loop goes on.
    DropTick,
    /// Log it; the state already updated in memory stands.
    LogAndContinue,
    /// Leave the drain loop and shut down.
    StopEngine,
}

/// How the host goes on after `fault`.
pub open spec fn disposition_of(fault: Fault) -> Disposition {
    match fault {
        Fault::Configuration => Disposition::AbortStartup,
        Fault::InvalidParameter => Disposition::AbortStartup,
        Fault::Adapter => Disposition::SkipAdapter,
        Fault::MalformedTick => Disposition::DropTick,
        Fault::SinkWrite => Disposition::LogAndContinue,
        Fault::ChannelClosed => Disposition::StopEngine,
        Fault::LockPoisoned => Disposition::StopEngine,
    }
}

/// The event that `fault` amounts to, if it is one that moves the engine.
pub open spec fn fault_event(fault: Fault) -> Option<EngineEvent> {
    match fault {
        Fault::Configuration => Some(EngineEvent::InitializationFailed),
        Fault::InvalidParameter => Some(EngineEvent::InitializationFailed),
        Fault::ChannelClosed => Some(EngineEvent::ChannelFailed),
        Fault::LockPoisoned => Some(EngineEvent::ChannelFailed),
        _ => None,
    }
}

/// How the host goes on after `fault`.
pub fn disposition(fault: Fault) -> (d: Disposition)
    ensures
        d == disposition_of(fault),
{
    match fault {
        Fault::Configuration => Disposition::AbortStartup,
        Fault::InvalidParameter => Disposition::AbortStartup,
        Fault::Adapter => Disposition::SkipAdapter,
        Fault::MalformedTick => Disposition::DropTick,
        Fault::SinkWrite => Disposition::LogAndContinue,
        Fault::ChannelClosed => Disposition::StopEngine,
        Fault::LockPoisoned => Disposition::StopEngine,
    }
}

/// A fault of one adapter, one record or one sink write is isolated: it
/// never moves the engine. A fault that stops progress takes a running
/// engine to `Stopping`.
pub proof fn lemma_faults(mode: EngineMode, state: EngineState, fault: Fault)
    ensures
        fault == Fault::Adapter || fault == Fault::MalformedTick || fault == Fault::SinkWrite
            ==> fault_event(fault) is None,
        disposition_of(fault) == Disposition::StopEngine && state == EngineState::Running
            ==> fault_event(fault) is Some && step_spec(mode, state, fault_event(fault)->0).0
            == EngineState::Stopping,
        disposition_of(fault) == Disposition::AbortStartup && state == EngineState::Initializing
            ==> fault_event(fault) is Some && step_spec(mode, state, fault_event(fault)->0).0
            == EngineState::Stopping,
{
}

/// Offline, whatever the events and from whatever state: no action connects,
/// subscribes or releases an adapter, replays history or starts the drain
/// loop.
pub proof fn lemma_offline_is_quiet(
    mode: EngineMode,
    state: EngineState,
    events: Seq<EngineEvent>,
)
    requires
        mode.offline,
        events.len() > 0,
    ensures
        !last_action(mode, state, events).calls_adapters(),
        !last_action(mode, state, events).releases_adapters(),
        !last_action(mode, state, events).warms_up(),
        !last_action(mode, state, events).starts_drain(),
{
}

/// Offline, a stopped engine that is started and initialized reports
/// `Running`, and a stop request followed by the drain report brings it back
/// to `Stopped`.
pub proof fn lemma_offline_life_cycle(mode: EngineMode)
    requires
        mode.offline,
    ensures
        state_after(mode, EngineState::Stopped, seq![EngineEvent::Start, EngineEvent::Initialized])
            == EngineState::Running,
        state_after(
            mode,
            EngineState::Running,
            seq![EngineEvent::StopRequested, EngineEvent::Drained],
        ) == EngineState::Stopped,
{
    reveal_with_fuel(state_after, 3);
    let up = seq![EngineEvent::Start, EngineEvent::Initialized];
    assert(up.drop_last() =~= seq![EngineEvent::Start]);
    assert(up.drop_last().drop_last() =~= Seq::<EngineEvent>::empty());
    let down = seq![EngineEvent::StopRequested, EngineEvent::Drained];
    assert(down.drop_last() =~= seq![EngineEvent::StopRequested]);
    assert(down.drop_last().drop_last() =~= Seq::<EngineEvent>::empty());
}

/// The states follow one another in a fixed order: an event leaves the
/// state as it is, or moves it one place along `Stopped`, `Initializing`,
/// `Running`, `Stopping` and back to `Stopped`, or from `Initializing`
/// straight to `Stopping`.
pub proof fn lemma_states_in_order(mode: EngineMode, state: EngineState, event: EngineEvent)
    ensures
        ({
            let next = step_spec(mode, state, event).0;
            ||| next == state
            ||| state == EngineState::Stopped && next == EngineState::Initializing
            ||| state == EngineState::Initializing && next == EngineState::Running
            ||| state == EngineState::Initializing && next == EngineState::Stopping
            ||| state == EngineState::Running && next == EngineState::Stopping
            ||| state == EngineState::Stopping && next == EngineState::Stopped
        }),
        step_spec(mode, state, event).1 == EngineAction::Ignore ==> step_spec(
            mode,
            state,
            event,
        ).0 == state,
        step_spec(mode, state, event).1.starts_drain() ==> step_spec(mode, state, event).0
            == EngineState::Running && !mode.offline,
{
}

} // verus!
