//! A verified core for supervision trees.
//!
//! A supervisor owns an ordered collection of supervised subjects and reacts
//! to the control messages that arrive in its inbox: it deploys, starts,
//! stops and kills its subjects, and restarts them after a fault as its
//! strategy demands. This crate holds the decisions of such a supervisor and
//! proves that they keep the registry of subjects consistent. Whatever has to
//! wait for the outside world (joining a running task, resetting a subject,
//! spawning it again) is handed to the caller as a directive, and its outcome
//! is handed back.
//!
//! # Running a supervisor
//!
//! Whoever runs a supervisor takes messages from its inbox and passes each
//! to [`Supervisor::receive`], then does what the answer asks for:
//!
//! - a [`Directive::Launch`] is answered with [`Supervisor::enlist`], once
//!   the subject is spawned;
//! - every handle of a [`Halt`] and the handle of a [`Directive::Join`] is
//!   waited for, and the outcome reported with [`Supervisor::settle`];
//! - a [`Recovery::Single`] ends with [`Supervisor::recovered`], a
//!   [`Recovery::Bulk`] goes on with [`Supervisor::restart`], whose jobs come
//!   back with [`Supervisor::rebuilt`];
//! - where one of these fails, or the inbox ends, the caller turns to
//!   [`Supervisor::escalate`].
//!
//! # Layout
//!
//! - [`message`]: the control protocol.
//! - [`roster`] and [`registry`]: the ordered registry of subjects, as
//!   mathematics and as data.
//! - [`protocol`] and [`supervisor`]: the state of a supervisor and what its
//!   operations make of it, as mathematics and as data.
//! - [`directive`]: what a supervisor asks of whoever runs it.
//! - [`reference`]: references to supervisors.
//! - [`dispatch`]: the messages that references and supervisors send.
//! - [`laws`]: what holds of all this.
//! - [`table`] and [`inbox`]: the hash tables and channels that the crate
//!   builds on.
//!
//! [`Supervisor::receive`]: supervisor::Supervisor::receive
//! [`Supervisor::enlist`]: supervisor::Supervisor::enlist
//! [`Supervisor::settle`]: supervisor::Supervisor::settle
//! [`Supervisor::recovered`]: supervisor::Supervisor::recovered
//! [`Supervisor::rebuilt`]: supervisor::Supervisor::rebuilt
//! [`Supervisor::restart`]: supervisor::Supervisor::restart
//! [`Supervisor::escalate`]: supervisor::Supervisor::escalate
//! [`Directive::Launch`]: directive::Directive::Launch
//! [`Directive::Join`]: directive::Directive::Join
//! [`Halt`]: directive::Halt
//! [`Recovery::Single`]: directive::Recovery::Single
//! [`Recovery::Bulk`]: directive::Recovery::Bulk
pub mod directive;
pub mod dispatch;
pub mod inbox;
pub mod laws;
pub mod message;
pub mod protocol;
pub mod reference;
pub mod registry;
pub mod roster;
pub mod strategy;
pub mod supervisor;
pub mod table;
