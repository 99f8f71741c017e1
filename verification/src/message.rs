//! The control protocol of a supervisor's inbox.
use crate::strategy::SupervisionStrategy;
use vstd::prelude::*;

verus! {

/// The identifier of a supervisor or of a supervised subject. Identifiers
/// are handed out by the transport and are unique within a process.
pub type Id = u128;

/// A control message. `S` is the type of a supervised subject and `M` the
/// payload of a message broadcast by the user.
#[derive(Debug, PartialEq)]
pub enum ControlMessage<S, M> {
    /// Starts the supervisor: what was buffered before is replayed.
    Start,
    /// Stops every subject gracefully, then the supervisor itself.
    Stop,
    /// Kills every subject, then the supervisor itself.
    Kill,
    /// Hands a new subject over for supervision.
    Deploy { id: Id, subject: S },
    /// Reserved for the removal of one subject; it has no effect yet.
    Prune { id: Id },
    /// Replaces the restart strategy.
    SuperviseWith(SupervisionStrategy),
    /// A payload to fan out to every registered subject.
    Message(M),
    /// A subject reports that it has stopped.
    Stopped { id: Id },
    /// A subject reports that it has faulted.
    Faulted { id: Id },
}

impl<S, M> ControlMessage<S, M> {
    /// The payload of a `Message`, and nothing of any other message.
    pub fn into_msg(self) -> (payload: Option<M>)
        ensures
            payload == (match self {
                ControlMessage::Message(inner) => Some(inner),
                _ => None,
            }),
    {
        match self {
            ControlMessage::Message(inner) => Some(inner),
            _ => None,
        }
    }
}

/// How subjects are brought down: gracefully or at once.
#[derive(Debug, Clone, Copy, PartialEq, Eq)]
pub enum Mode {
    Stop,
    Kill,
}

/// How a stop or a kill reaches the subjects it is meant for.
#[derive(Debug, PartialEq, Eq)]
pub enum Fanout {
    /// One operation of the transport that reaches every registered subject.
    Group,
    /// One message to each of these subjects, in this order.
    Each(Vec<Id>),
}

/// The lifecycle hooks of a subject.
#[derive(Debug, Clone, Copy, PartialEq, Eq)]
pub enum Hook {
    /// Called before a new subject is registered, and on a subject that
    /// comes back from a graceful stop.
    BeforeStart,
    /// Called after the task of a subject has ended gracefully.
    AfterStop,
    /// Called on a killed subject before it is reset.
    BeforeRestart,
    /// Called on a killed subject after its reset and before it is
    /// launched again.
    AfterRestart,
}

/// What a supervisor tells its parent when its loop ends.
#[derive(Debug, Clone, Copy, PartialEq, Eq)]
pub enum Notice {
    Stopped,
    Faulted,
}

} // verus!
