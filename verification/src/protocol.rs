//! The control protocol of a supervisor, as mathematics.
//!
//! The state of a supervisor and what each of its operations makes of it,
//! stated as functions from state to state.
use crate::directive::{Directive, Intake, Launch, Recovery};
use crate::inbox::Sender;
use crate::message::{ControlMessage, Id, Mode, Notice};
use crate::roster::Roster;
use crate::strategy::SupervisionStrategy;
use vstd::prelude::*;

verus! {

/// What can happen to a supervisor: each variant stands for one of its
/// operations.
#[verifier::reject_recursive_types(S)]
#[verifier::reject_recursive_types(M)]
pub enum Event<S, H, M> {
    /// A message was taken from the inbox.
    Received(ControlMessage<S, M>),
    /// A message was handled.
    Handled(ControlMessage<S, M>),
    /// The strategy was set.
    Configured(SupervisionStrategy),
    /// The subjects from position `start` on were stopped or killed.
    Halted { start: nat },
    /// The restart engine was asked to answer a fault of `id`.
    Recovering { id: Id },
    /// The task of `id` ended with `outcome`.
    Settled { id: Id, mode: Mode, outcome: Option<S> },
    /// The subject `id` was launched with `handle`.
    Enlisted { id: Id, handle: H },
    /// The subject `old` came back as `new`, running with `handle`.
    Replaced { old: Id, new: Id, handle: H },
    /// The subjects from position `start` on were taken out to be reset.
    Restarted { start: nat },
    /// The supervisor itself was reset.
    Reset { inbox: Option<(Id, Sender<S, M>)> },
}

/// What a supervisor holds.
#[verifier::ext_equal]
#[verifier::reject_recursive_types(S)]
#[verifier::reject_recursive_types(M)]
pub struct State<S, H, M> {
    /// The identifier of the supervisor.
    pub id: Id,
    /// A sending end of its inbox.
    pub inbox: Sender<S, M>,
    /// Its subjects.
    pub roster: Roster<S, H>,
    /// How it answers a fault.
    pub strategy: SupervisionStrategy,
    /// Whether it is the supervisor at the root of the tree, which the
    /// system creates itself.
    pub system: bool,
    /// The messages that arrived before it was started, in arrival order.
    pub buffer: Seq<ControlMessage<S, M>>,
    /// Whether it has been started.
    pub started: bool,
}

impl<S, H, M> State<S, H, M> {
    /// The invariant of a supervisor: that of its registry, and that
    /// nothing is buffered once it has been started.
    pub open spec fn wf(self) -> bool {
        &&& self.roster.wf()
        &&& self.started ==> self.buffer.len() == 0
    }

    /// The state of a supervisor that has just been created.
    pub open spec fn initial(id: Id, inbox: Sender<S, M>, system: bool) -> Self {
        State {
            id,
            inbox,
            roster: Roster::empty(),
            strategy: SupervisionStrategy::OneForOne,
            system,
            buffer: Seq::empty(),
            started: false,
        }
    }

    /// The state after the handles of the running subjects from position
    /// `start` on were taken out.
    pub open spec fn halted(self, start: int) -> Self {
        State { roster: self.roster.checked_out(start, self.roster.order.len() as int), ..self }
    }

    /// Whether the restart engine accepts a fault of `id`.
    pub open spec fn recoverable(self, id: Id) -> bool {
        match self.strategy {
            SupervisionStrategy::OneForOne => self.roster.running(id),
            SupervisionStrategy::OneForAll => true,
            SupervisionStrategy::RestForOne => self.roster.launched.contains_key(id),
        }
    }

    /// The position from which the subjects are restarted after a fault of
    /// `id`, where the strategy restarts more than one.
    pub open spec fn restart_from(self, id: Id) -> int {
        match self.strategy {
            SupervisionStrategy::RestForOne => self.roster.launched[id].0 as int,
            _ => 0,
        }
    }

    /// The state after the restart engine accepted a fault of `id`.
    pub open spec fn recovering(self, id: Id) -> Self {
        match self.strategy {
            SupervisionStrategy::OneForOne => State { roster: self.roster.taken(id), ..self },
            _ => self.halted(self.restart_from(id)),
        }
    }

    /// Whether `recovery` is the answer of the restart engine to a fault of
    /// `id` that it accepts.
    pub open spec fn recovers_with(self, id: Id, recovery: Recovery<H>) -> bool {
        match self.strategy {
            SupervisionStrategy::OneForOne => recovery == (Recovery::Single {
                id,
                handle: self.roster.launched[id].1->0,
                start: self.started,
            }),
            _ => recovery matches Recovery::Bulk { from, halt } && from == self.restart_from(id)
                && halt.carries(self.roster, Mode::Kill, self.restart_from(id)),
        }
    }

    /// The state after `msg` was handled.
    pub open spec fn handled(self, msg: ControlMessage<S, M>) -> Self {
        match msg {
            ControlMessage::Stop => self.halted(0),
            ControlMessage::Kill => self.halted(0),
            ControlMessage::SuperviseWith(strategy) => State { strategy, ..self },
            ControlMessage::Stopped { id } => State { roster: self.roster.taken(id), ..self },
            ControlMessage::Faulted { id } => if self.recoverable(id) {
                self.recovering(id)
            } else {
                self.halted(0)
            },
            _ => self,
        }
    }

    /// Whether `directive` is what handling `msg` asks for.
    pub open spec fn directs(self, msg: ControlMessage<S, M>, directive: Directive<S, H, M>) -> bool {
        match msg {
            ControlMessage::Start => directive is Nothing,
            ControlMessage::Prune { id } => directive is Nothing,
            ControlMessage::SuperviseWith(strategy) => directive is Nothing,
            ControlMessage::Stop => directive matches Directive::Terminate { halt, notice } && notice
                == Notice::Stopped && halt.carries(self.roster, Mode::Stop, 0),
            ControlMessage::Kill => directive matches Directive::Terminate { halt, notice } && notice
                == Notice::Stopped && halt.carries(self.roster, Mode::Kill, 0),
            ControlMessage::Deploy { id, subject } => if self.roster.knows(id) {
                directive is Nothing
            } else {
                directive == Directive::<S, H, M>::Launch(Launch { id, subject, start: self.started })
            },
            ControlMessage::Message(payload) => directive == Directive::<S, H, M>::Broadcast(payload),
            ControlMessage::Stopped { id } => if self.roster.running(id) {
                directive == (Directive::<S, H, M>::Join { id, handle: self.roster.launched[id].1->0 })
            } else {
                directive is Nothing
            },
            ControlMessage::Faulted { id } => if self.recoverable(id) {
                directive matches Directive::Recover(recovery) && self.recovers_with(id, recovery)
            } else {
                directive matches Directive::Terminate { halt, notice } && notice == Notice::Faulted
                    && halt.carries(self.roster, Mode::Kill, 0)
            },
        }
    }

    /// The state after `msg` was taken from the inbox.
    pub open spec fn received(self, msg: ControlMessage<S, M>) -> Self {
        if msg is Start {
            if self.started {
                self
            } else {
                State { started: true, buffer: Seq::empty(), ..self }
            }
        } else if self.started {
            self.handled(msg)
        } else {
            State { buffer: self.buffer.push(msg), ..self }
        }
    }

    /// Whether `intake` is what became of `msg`, taken from the inbox.
    pub open spec fn takes_in(self, msg: ControlMessage<S, M>, intake: Intake<S, H, M>) -> bool {
        if msg is Start {
            if self.started {
                intake matches Intake::Act(directive) && directive is Nothing
            } else {
                intake matches Intake::Replay(replay) && replay@ == self.buffer
            }
        } else if self.started {
            intake matches Intake::Act(directive) && self.directs(msg, directive)
        } else {
            intake is Buffered
        }
    }

    /// The state after the supervisor was reset, with a new identifier and
    /// inbox if `inbox` has them.
    pub open spec fn reset(self, inbox: Option<(Id, Sender<S, M>)>) -> Self {
        State {
            id: match inbox {
                Some((id, _)) => id,
                None => self.id,
            },
            inbox: match inbox {
                Some((_, sender)) => sender,
                None => self.inbox,
            },
            roster: self.roster.drained(0),
            buffer: Seq::empty(),
            started: false,
            ..self
        }
    }

    /// The state after `event`. An event that the supervisor refuses
    /// leaves the state as it is.
    pub open spec fn after(self, event: Event<S, H, M>) -> Self {
        match event {
            Event::Received(msg) => self.received(msg),
            Event::Handled(msg) => self.handled(msg),
            Event::Configured(strategy) => State { strategy, ..self },
            Event::Halted { start } => if start <= self.roster.order.len() {
                self.halted(start as int)
            } else {
                self
            },
            Event::Recovering { id } => if self.recoverable(id) {
                self.recovering(id)
            } else {
                self
            },
            Event::Settled { id, mode, outcome } => State {
                roster: self.roster.settled(id, mode, outcome),
                ..self
            },
            Event::Enlisted { id, handle } => State { roster: self.roster.enrolled(id, handle), ..self },
            Event::Replaced { old, new, handle } => if self.roster.replaceable(old, new) {
                State { roster: self.roster.replaced(old, new, handle), ..self }
            } else {
                self
            },
            Event::Restarted { start } => if start <= self.roster.order.len()
                && self.roster.restorable_from(start as int) {
                State { roster: self.roster.drained(start as int), ..self }
            } else {
                self
            },
            Event::Reset { inbox } => if self.roster.restorable_from(0) {
                self.reset(inbox)
            } else {
                self
            },
        }
    }

    /// The state after `events`, one after the other.
    pub open spec fn run(self, events: Seq<Event<S, H, M>>) -> Self
        decreases events.len(),
    {
        if events.len() == 0 {
            self
        } else {
            self.run(events.drop_last()).after(events.last())
        }
    }
}

} // verus!
