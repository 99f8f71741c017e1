//! References to supervisors.
use crate::dispatch::{send_deployment, send_kill, send_payload, send_stop, send_strategy};
use crate::inbox::{another, send, Sender};
use crate::message::{ControlMessage, Id};
use crate::strategy::SupervisionStrategy;
use vstd::prelude::*;

verus! {

/// A "reference" to a supervisor, allowing to communicate with it: the
/// supervisor's identifier and a sending end of its inbox. A reference
/// outlives the restarts of the supervisor it refers to.
#[derive(Debug)]
#[verifier::reject_recursive_types(S)]
#[verifier::reject_recursive_types(M)]
pub struct SupervisorRef<S, M> {
    id: Id,
    sender: Sender<S, M>,
}

impl<S, M> Clone for SupervisorRef<S, M> {
    fn clone(&self) -> (copy: Self)
        ensures
            copy.identity() == self.identity(),
    {
        SupervisorRef { id: self.id, sender: another(&self.sender) }
    }
}

impl<S, M> SupervisorRef<S, M> {
    /// The identifier of the supervisor referred to.
    pub closed spec fn identity(&self) -> Id {
        self.id
    }

    /// The sending end that the reference holds.
    pub closed spec fn inbox(&self) -> Sender<S, M> {
        self.sender
    }

    /// What a caller who passed no payload is told about the outcome of a
    /// send.
    pub open spec fn acknowledgement(sent: Result<(), ControlMessage<S, M>>) -> Result<(), ()> {
        match sent {
            Ok(()) => Ok(()),
            Err(_) => Err(()),
        }
    }

    /// What the caller of `broadcast` is told about the outcome of a send:
    /// a payload that was not sent is returned.
    pub open spec fn restitution(sent: Result<(), ControlMessage<S, M>>) -> Result<(), M> {
        match sent {
            Ok(()) => Ok(()),
            Err(returned) => Err(returned->Message_0),
        }
    }

    /// Makes a reference from an identifier and a sending end.
    pub fn new(id: Id, sender: Sender<S, M>) -> (reference: Self)
        ensures
            reference.identity() == id,
            reference.inbox() == sender,
    {
        SupervisorRef { id, sender }
    }

    /// The identifier of the supervisor referred to.
    pub fn id(&self) -> (id: Id)
        ensures
            id == self.identity(),
    {
        self.id
    }

    /// Puts `msg` into the inbox of the supervisor. This fails only if the
    /// inbox is closed, and the message is then given back.
    pub fn send(&self, msg: ControlMessage<S, M>) -> (sent: Result<(), ControlMessage<S, M>>)
        ensures
            sent matches Err(returned) ==> returned == msg,
    {
        send(&self.sender, msg)
    }

    /// Turns the outcome of a send into what a caller who passed no payload
    /// is told.
    pub fn acknowledge(sent: Result<(), ControlMessage<S, M>>) -> (told: Result<(), ()>)
        ensures
            told == Self::acknowledgement(sent),
    {
        match sent {
            Ok(()) => Ok(()),
            Err(_) => Err(()),
        }
    }

    /// Turns the outcome of sending a `Message` into what the caller of
    /// `broadcast` is told.
    pub fn give_back(sent: Result<(), ControlMessage<S, M>>) -> (told: Result<(), M>)
        requires
            sent matches Err(returned) ==> returned is Message,
        ensures
            told == Self::restitution(sent),
    {
        match sent {
            Ok(()) => Ok(()),
            Err(returned) => match returned.into_msg() {
                Some(payload) => Err(payload),
                None => Ok(()),
            },
        }
    }

    /// Turns the outcome of sending the deployment of a child supervisor
    /// into what the caller of `supervisor` is told: a reference to the
    /// child, made of `id` and `sender`, if and only if the deployment was
    /// sent.
    pub fn introduce(sent: Result<(), ControlMessage<S, M>>, id: Id, sender: Sender<S, M>) -> (told:
        Result<SupervisorRef<S, M>, ()>)
        ensures
            told is Ok <==> sent is Ok,
            told matches Ok(child) ==> child.identity() == id && child.inbox() == sender,
    {
        match sent {
            Ok(()) => Ok(SupervisorRef::new(id, sender)),
            Err(_) => Err(()),
        }
    }

    /// Sends the supervisor a new child supervisor to supervise: `subject`,
    /// whose identifier is `id` and whose inbox `sender` sends to. Returns a
    /// reference to the child if the message was sent.
    pub fn supervisor(&self, id: Id, subject: S, sender: Sender<S, M>) -> (deployed: Result<
        SupervisorRef<S, M>,
        (),
    >)
        ensures
            deployed matches Ok(child) ==> child.identity() == id && child.inbox() == sender,
    {
        Self::introduce(send_deployment(&self.sender, id, subject), id, sender)
    }

    /// Sends the supervisor a new worker group to supervise: `subject`,
    /// whose identifier is `id`. Returns `Ok` if the message was sent.
    pub fn children(&self, id: Id, subject: S) -> (deployed: Result<(), ()>) {
        Self::acknowledge(send_deployment(&self.sender, id, subject))
    }

    /// Sends the supervisor the strategy that it should follow from now on
    /// when one of its subjects faults. Returns `Ok` if the message was
    /// sent.
    pub fn strategy(&self, strategy: SupervisionStrategy) -> (told: Result<(), ()>) {
        Self::acknowledge(send_strategy(&self.sender, strategy))
    }

    /// Sends the supervisor a payload that it will fan out to all of its
    /// subjects. Returns `Ok` if the message was sent and the payload
    /// otherwise.
    pub fn broadcast(&self, msg: M) -> (told: Result<(), M>)
        ensures
            told matches Err(returned) ==> returned == msg,
    {
        Self::give_back(send_payload(&self.sender, msg))
    }

    /// Sends the supervisor the order to stop every subject and itself.
    /// Returns `Ok` if the message was sent.
    pub fn stop(&self) -> (told: Result<(), ()>) {
        Self::acknowledge(send_stop(&self.sender))
    }

    /// Sends the supervisor the order to kill every subject and itself.
    /// Returns `Ok` if the message was sent.
    pub fn kill(&self) -> (told: Result<(), ()>) {
        Self::acknowledge(send_kill(&self.sender))
    }
}

} // verus!
