//! The messages that references and supervisors put into an inbox.
//!
//! Whether a message gets into the inbox is for the channel to decide. What
//! is sent is decided here: there is one function for each message, and
//! each says which message comes back if it could not be sent.
use crate::inbox::{send, Sender};
use crate::message::{ControlMessage, Id};
use crate::strategy::SupervisionStrategy;
use vstd::prelude::*;

verus! {

/// Sends the order to stop every subject and the supervisor itself.
pub fn send_stop<S, M>(sender: &Sender<S, M>) -> (sent: Result<(), ControlMessage<S, M>>)
    ensures
        sent matches Err(returned) ==> returned == ControlMessage::<S, M>::Stop,
{
    send(sender, ControlMessage::Stop)
}

/// Sends the order to kill every subject and the supervisor itself.
pub fn send_kill<S, M>(sender: &Sender<S, M>) -> (sent: Result<(), ControlMessage<S, M>>)
    ensures
        sent matches Err(returned) ==> returned == ControlMessage::<S, M>::Kill,
{
    send(sender, ControlMessage::Kill)
}

/// Sends the strategy that the supervisor should follow from now on.
pub fn send_strategy<S, M>(sender: &Sender<S, M>, strategy: SupervisionStrategy) -> (sent: Result<
    (),
    ControlMessage<S, M>,
>)
    ensures
        sent matches Err(returned) ==> returned == ControlMessage::<S, M>::SuperviseWith(strategy),
{
    send(sender, ControlMessage::SuperviseWith(strategy))
}

/// Sends `subject`, whose identifier is `id`, to be supervised.
pub fn send_deployment<S, M>(sender: &Sender<S, M>, id: Id, subject: S) -> (sent: Result<
    (),
    ControlMessage<S, M>,
>)
    ensures
        sent matches Err(returned) ==> returned == (ControlMessage::<S, M>::Deploy { id, subject }),
{
    send(sender, ControlMessage::Deploy { id, subject })
}

/// Sends a payload to be fanned out to every subject.
pub fn send_payload<S, M>(sender: &Sender<S, M>, payload: M) -> (sent: Result<
    (),
    ControlMessage<S, M>,
>)
    ensures
        sent matches Err(returned) ==> returned == ControlMessage::<S, M>::Message(payload),
{
    send(sender, ControlMessage::Message(payload))
}

} // verus!
