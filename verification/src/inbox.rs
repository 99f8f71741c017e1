//! The sending end of a supervisor's inbox.
//!
//! An inbox is an unbounded channel of the `futures` crate. What the
//! verifier is told about it is stated here and proved nowhere.
use crate::message::ControlMessage;
use futures::channel::mpsc::UnboundedSender;
use vstd::prelude::*;

verus! {

/// The sending end of an unbounded channel of `futures`.
#[verifier::external_type_specification]
#[verifier::external_body]
#[verifier::reject_recursive_types(T)]
pub struct ExUnboundedSender<T>(UnboundedSender<T>);

/// The sending end of the inbox of a supervisor.
pub type Sender<S, M> = UnboundedSender<ControlMessage<S, M>>;

/// Calls `UnboundedSender::unbounded_send`, which puts `msg` into the inbox
/// unless the inbox is closed, and on failure
/// `TrySendError::into_inner`. Whether the inbox is closed is not known
/// here. Claimed: a message that could not be sent is given back as it was.
/// The channel panics if it already holds as many messages as it can count.
#[verifier::external_body]
pub(crate) fn send<S, M>(sender: &Sender<S, M>, msg: ControlMessage<S, M>) -> (outcome: Result<
    (),
    ControlMessage<S, M>,
>)
    ensures
        outcome matches Err(returned) ==> returned == msg,
{
    sender.unbounded_send(msg).map_err(|err| err.into_inner())
}

/// Calls `clone` of `UnboundedSender`, which makes one more sending end of
/// the same inbox. Nothing is claimed of the result. The channel panics if
/// it already has as many sending ends as it can count.
#[verifier::external_body]
pub(crate) fn another<S, M>(sender: &Sender<S, M>) -> (copy: Sender<S, M>) {
    sender.clone()
}

} // verus!
