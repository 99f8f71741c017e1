//! What a supervisor asks of whoever runs it.
//!
//! A supervisor decides; it does not wait. Where a decision needs the
//! outside world (a message to a subject, the end of a running task, the
//! reset of a subject, a new task) it hands out one of the values below and
//! expects the outcome to be reported to it.
use crate::message::{ControlMessage, Fanout, Hook, Id, Mode, Notice};
use crate::registry::Job;
use crate::roster::Roster;
use vstd::prelude::*;

verus! {

/// Subjects to bring down: the messages to send, and then the tasks to wait
/// for, in this order. The outcome of each wait is reported with
/// `Supervisor::settle`, under the same mode.
#[derive(Debug, PartialEq)]
pub struct Halt<H> {
    /// Whether the subjects are stopped or killed.
    pub mode: Mode,
    /// How the stop or kill message reaches them.
    pub fanout: Fanout,
    /// The running subjects among them, each with the handle of its task.
    pub joins: Vec<(Id, H)>,
}

/// A subject to register with the transport and to spawn. Its hook is
/// called first. If `start` is set, a start message is sent to it between
/// the registration and the spawn. The handle of the new task is reported
/// with `Supervisor::enlist`.
#[derive(Debug, PartialEq)]
pub struct Launch<S> {
    pub id: Id,
    pub subject: S,
    pub start: bool,
}

/// Subjects to reset, all at once, and then to launch one by one in this
/// order, each under the identifier that its reset gave it. A job whose
/// subject was killed has its before-restart hook called before the reset
/// and its after-restart hook after it; one whose subject was stopped has
/// its before-start hook called after the reset. The subjects that run
/// again are reported with `Supervisor::rebuilt`.
#[derive(Debug, PartialEq)]
pub struct Rebuild<S> {
    pub jobs: Vec<Job<S>>,
    /// Whether a start message is sent to each subject once it is
    /// registered again.
    pub start: bool,
}

/// How the restart engine answers a fault.
#[derive(Debug, PartialEq)]
pub enum Recovery<H> {
    /// Restart this subject alone: wait for its task, call the hook due
    /// before the reset, unregister it, reset it, call the hook due after
    /// the reset and launch it again, then report with
    /// `Supervisor::recovered`.
    Single { id: Id, handle: H, start: bool },
    /// Restart every subject from position `from` on: bring them down as
    /// `halt` says, then go on with `Supervisor::restart`.
    Bulk { from: usize, halt: Halt<H> },
}

/// What is to be done about a control message.
#[derive(Debug, PartialEq)]
pub enum Directive<S, H, M> {
    /// Nothing.
    Nothing,
    /// Fan this payload out to every registered subject.
    Broadcast(M),
    /// Call the before-start hook of this subject and launch it.
    Launch(Launch<S>),
    /// Wait for the task of this subject, which has stopped of its own
    /// accord, report the outcome with `Supervisor::settle` under
    /// `Mode::Stop`, and unregister it from the transport.
    Join { id: Id, handle: H },
    /// Restart subjects after a fault.
    Recover(Recovery<H>),
    /// Bring every subject down, send `notice` to the parent and end the
    /// loop.
    Terminate { halt: Halt<H>, notice: Notice },
}

/// What became of a message taken from the inbox.
#[derive(Debug, PartialEq)]
pub enum Intake<S, H, M> {
    /// It waits in the buffer for the supervisor to be started.
    Buffered,
    /// The supervisor has just been started: fan a start message out to
    /// every registered subject, then handle these messages, which had been
    /// buffered, in this order.
    Replay(Vec<ControlMessage<S, M>>),
    /// It was handled.
    Act(Directive<S, H, M>),
}

impl<S> Launch<S> {
    /// The hook that is due on a new subject before it is registered:
    /// before-start.
    pub fn hook(&self) -> (hook: Hook)
        ensures
            hook == Hook::BeforeStart,
    {
        Hook::BeforeStart
    }
}

impl<H> Recovery<H> {
    /// The hook that is due before the reset on a subject that is restarted
    /// alone: before-restart. Where several subjects are restarted, their
    /// jobs say which hooks are due, and this is none.
    pub fn hook_before_reset(&self) -> (hook: Option<Hook>)
        ensures
            hook == (if self is Single {
                Some(Hook::BeforeRestart)
            } else {
                None
            }),
    {
        match self {
            Recovery::Single { .. } => Some(Hook::BeforeRestart),
            Recovery::Bulk { .. } => None,
        }
    }

    /// The hook that is due after the reset on a subject that is restarted
    /// alone: after-restart. Where several subjects are restarted, their
    /// jobs say which hooks are due, and this is none.
    pub fn hook_after_reset(&self) -> (hook: Option<Hook>)
        ensures
            hook == (if self is Single {
                Some(Hook::AfterRestart)
            } else {
                None
            }),
    {
        match self {
            Recovery::Single { .. } => Some(Hook::AfterRestart),
            Recovery::Bulk { .. } => None,
        }
    }
}

impl Fanout {
    /// Whether this is the way to reach the subjects of `order` from
    /// position `start` on: all of them at once where `start` is 0, one by
    /// one otherwise.
    pub open spec fn reaches(self, order: Seq<Id>, start: int) -> bool {
        match self {
            Fanout::Group => start == 0,
            Fanout::Each(ids) => start > 0 && ids@ == order.subrange(start, order.len() as int),
        }
    }
}

impl<H> Halt<H> {
    /// Whether this brings down, in `mode`, the subjects of `roster` from
    /// position `start` on.
    pub open spec fn carries<S>(self, roster: Roster<S, H>, mode: Mode, start: int) -> bool {
        &&& self.mode == mode
        &&& self.fanout.reaches(roster.order, start)
        &&& self.joins@ == roster.joins(start, roster.order.len() as int)
    }
}

} // verus!
