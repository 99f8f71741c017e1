//! Supervisors.
//!
//! A supervisor supervises an ordered collection of subjects: worker groups
//! and other supervisors. It takes control messages from its inbox and
//! decides what they mean for its subjects. When a subject faults, the
//! supervisor restarts it, and possibly some of the others, as its
//! `SupervisionStrategy` demands.
//!
//! The supervisor never waits. Its methods change its own state and return
//! directives for whoever runs it, who reports what came of them.
use crate::directive::{Directive, Halt, Intake, Launch, Rebuild, Recovery};
use crate::dispatch::send_deployment;
use crate::inbox::{another, Sender};
use crate::message::{ControlMessage, Fanout, Id, Mode, Notice};
use crate::protocol::{Event, State};
use crate::reference::SupervisorRef;
use crate::registry::{Registry, Settled, Status};
use crate::strategy::SupervisionStrategy;
use vstd::prelude::*;

verus! {

/// A supervisor.
#[derive(Debug)]
#[verifier::reject_recursive_types(S)]
#[verifier::reject_recursive_types(M)]
pub struct Supervisor<S, H, M> {
    id: Id,
    sender: Sender<S, M>,
    // The subjects, in the order in which they were deployed, each filed
    // under launched, stopped or killed.
    registry: Registry<S, H>,
    strategy: SupervisionStrategy,
    // Whether this supervisor was created by the system (in which case,
    // users should not be able to get a reference to it).
    is_system_supervisor: bool,
    // Messages that were received before the supervisor was started. Those
    // are replayed once a start message is received.
    pre_start_msgs: Vec<ControlMessage<S, M>>,
    started: bool,
}

impl<S, H, M> View for Supervisor<S, H, M> {
    type V = State<S, H, M>;

    closed spec fn view(&self) -> State<S, H, M> {
        State {
            id: self.id,
            inbox: self.sender,
            roster: self.registry@,
            strategy: self.strategy,
            system: self.is_system_supervisor,
            buffer: self.pre_start_msgs@,
            started: self.started,
        }
    }
}

impl<S, H, M> Supervisor<S, H, M> {
    /// The invariant of the supervisor: that of its state.
    pub open spec fn wf(&self) -> bool {
        self@.wf()
    }

    /// Creates a supervisor whose identifier is `id` and whose inbox
    /// `sender` sends to. It has no subjects, is not started and follows
    /// the default strategy.
    pub fn new(id: Id, sender: Sender<S, M>) -> (supervisor: Self)
        ensures
            supervisor.wf(),
            supervisor@ == State::<S, H, M>::initial(id, sender, false),
    {
        let registry = Registry::new();
        let strategy = SupervisionStrategy::default();
        let is_system_supervisor = false;
        let pre_start_msgs = Vec::new();
        let started = false;

        Supervisor { id, sender, registry, strategy, is_system_supervisor, pre_start_msgs, started }
    }

    /// Creates the supervisor at the root of the tree.
    pub fn system(id: Id, sender: Sender<S, M>) -> (supervisor: Self)
        ensures
            supervisor.wf(),
            supervisor@ == State::<S, H, M>::initial(id, sender, true),
    {
        let mut supervisor = Supervisor::new(id, sender);
        supervisor.is_system_supervisor = true;

        supervisor
    }

    /// The identifier of the supervisor.
    pub fn id(&self) -> (id: Id)
        ensures
            id == self@.id,
    {
        self.id
    }

    /// Whether this is the supervisor at the root of the tree.
    pub fn is_system_supervisor(&self) -> (system: bool)
        ensures
            system == self@.system,
    {
        self.is_system_supervisor
    }

    /// Whether the supervisor has been started.
    pub fn started(&self) -> (started: bool)
        ensures
            started == self@.started,
    {
        self.started
    }

    /// The strategy that the supervisor follows.
    pub fn strategy(&self) -> (strategy: SupervisionStrategy)
        ensures
            strategy == self@.strategy,
    {
        self.strategy
    }

    /// The number of messages that wait for the supervisor to be started.
    pub fn buffered(&self) -> (n: usize)
        ensures
            n == self@.buffer.len(),
    {
        self.pre_start_msgs.len()
    }

    /// The number of subjects.
    pub fn len(&self) -> (n: usize)
        ensures
            n == self@.roster.order.len(),
    {
        self.registry.len()
    }

    /// The identifiers of the subjects, in deployment order.
    pub fn order(&self) -> (ids: Vec<Id>)
        ensures
            ids@ == self@.roster.order,
    {
        let ids = self.registry.ordinals_at_or_after(0);
        proof {
            assert(ids@ =~= self@.roster.order);
        }
        ids
    }

    /// Under which heading the subject `id` is filed, if it is known.
    pub fn status(&self, id: Id) -> (status: Option<Status>)
        requires
            self.wf(),
        ensures
            status == Some(Status::Launched) <==> self@.roster.launched.contains_key(id),
            status == Some(Status::Stopped) <==> self@.roster.stopped.contains_key(id),
            status == Some(Status::Killed) <==> self@.roster.killed.contains_key(id),
            status is None <==> !self@.roster.knows(id),
    {
        self.registry.status(id)
    }

    /// The ordinal of the subject `id`, if it is launched.
    pub fn ordinal_of(&self, id: Id) -> (ordinal: Option<usize>)
        ensures
            ordinal == (if self@.roster.launched.contains_key(id) {
                Some(self@.roster.launched[id].0)
            } else {
                None
            }),
    {
        self.registry.ordinal_of(id)
    }

    /// The value of the dormant subject `id`, if it is at hand: what its
    /// hooks are called on.
    pub fn dormant(&self, id: Id) -> (subject: Option<&S>)
        requires
            self.wf(),
        ensures
            subject is Some <==> self@.roster.restorable(id),
            subject is Some ==> *subject->0 == self@.roster.job_of(id).subject,
    {
        self.registry.dormant(id)
    }

    /// A reference to the supervisor.
    pub fn as_ref(&self) -> (reference: SupervisorRef<S, M>)
        ensures
            reference.identity() == self@.id,
    {
        let id = self.id;
        let sender = another(&self.sender);

        SupervisorRef::new(id, sender)
    }

    /// Puts the deployment of `subject`, whose identifier is `id`, into the
    /// supervisor's own inbox.
    fn send_self(&self, id: Id, subject: S) -> (sent: Result<(), ControlMessage<S, M>>)
        ensures
            sent matches Err(returned) ==> returned == (ControlMessage::<S, M>::Deploy { id, subject }),
    {
        send_deployment(&self.sender, id, subject)
    }

    /// Starts supervising a new child supervisor: `subject`, whose
    /// identifier is `id`. The deployment is put into the supervisor's own
    /// inbox, and is dropped if the inbox is closed.
    pub fn supervisor(self, id: Id, subject: S) -> (parent: Self)
        ensures
            parent == self,
    {
        let _sent = self.send_self(id, subject);

        self
    }

    /// Starts supervising a new child supervisor: `subject`, whose
    /// identifier is `id` and whose inbox `sender` sends to, and returns a
    /// reference to it. The deployment is put into the supervisor's own
    /// inbox, and is dropped if the inbox is closed.
    pub fn supervisor_ref(&mut self, id: Id, subject: S, sender: Sender<S, M>) -> (child: SupervisorRef<
        S,
        M,
    >)
        ensures
            *final(self) == *old(self),
            child.identity() == id,
            child.inbox() == sender,
    {
        let supervisor_ref = SupervisorRef::new(id, sender);

        let _sent = self.send_self(id, subject);

        supervisor_ref
    }

    /// Starts supervising a new worker group: `subject`, whose identifier
    /// is `id`. The deployment is put into the supervisor's own inbox, and
    /// is dropped if the inbox is closed.
    pub fn children(self, id: Id, subject: S) -> (parent: Self)
        ensures
            parent == self,
    {
        let _sent = self.send_self(id, subject);

        self
    }

    /// Starts supervising a new worker group: `subject`, whose identifier
    /// is `id`. The deployment is put into the supervisor's own inbox;
    /// returns whether it was.
    pub fn children_ref(&self, id: Id, subject: S) -> (deployed: bool) {
        self.send_self(id, subject).is_ok()
    }

    /// Sets the strategy the supervisor should follow when one of its
    /// subjects faults.
    pub fn with_strategy(self, strategy: SupervisionStrategy) -> (supervisor: Self)
        ensures
            supervisor@ == (State { strategy, ..self@ }),
            supervisor@ == self@.after(Event::Configured(strategy)),
    {
        let mut supervisor = self;
        supervisor.strategy = strategy;
        supervisor
    }

    /// Brings the subjects from position `start` on down, in `mode`: says
    /// how the message reaches them and takes the handles of the running
    /// ones out, to wait for their tasks.
    fn halt(&mut self, mode: Mode, start: usize) -> (halt: Halt<H>)
        requires
            old(self).wf(),
            start <= old(self)@.roster.order.len(),
        ensures
            final(self).wf(),
            final(self)@ == old(self)@.halted(start as int),
            halt.carries(old(self)@.roster, mode, start as int),
    {
        let fanout = if start == 0 {
            Fanout::Group
        } else {
            Fanout::Each(self.registry.ordinals_at_or_after(start))
        };
        let joins = self.registry.take_handles_from(start);

        Halt { mode, fanout, joins }
    }

    /// Stops the subjects from position `start` on. With `start` 0 one
    /// operation of the transport reaches them all; otherwise each gets a
    /// message of its own. The running ones are then waited for in
    /// deployment order.
    pub fn stop(&mut self, start: usize) -> (halt: Halt<H>)
        requires
            old(self).wf(),
            start <= old(self)@.roster.order.len(),
        ensures
            final(self).wf(),
            final(self)@ == old(self)@.halted(start as int),
            final(self)@ == old(self)@.after(Event::Halted { start: start as nat }),
            halt.carries(old(self)@.roster, Mode::Stop, start as int),
            start == 0 <==> halt.fanout is Group,
    {
        self.halt(Mode::Stop, start)
    }

    /// Kills the subjects from position `start` on. With `start` 0 one
    /// operation of the transport reaches them all; otherwise each gets a
    /// message of its own. The running ones are then waited for in
    /// deployment order.
    pub fn kill(&mut self, start: usize) -> (halt: Halt<H>)
        requires
            old(self).wf(),
            start <= old(self)@.roster.order.len(),
        ensures
            final(self).wf(),
            final(self)@ == old(self)@.halted(start as int),
            final(self)@ == old(self)@.after(Event::Halted { start: start as nat }),
            halt.carries(old(self)@.roster, Mode::Kill, start as int),
            start == 0 <==> halt.fanout is Group,
    {
        self.halt(Mode::Kill, start)
    }

    /// Files a subject whose task has ended. `outcome` is what the task
    /// gave back: the subject, or nothing. A subject that was being stopped
    /// is filed under stopped, one that was being killed under killed, and
    /// one whose task gave nothing back under killed, without a value. If
    /// nobody was waiting for `id`, nothing changes.
    pub fn settle(&mut self, id: Id, mode: Mode, outcome: Option<S>) -> (settled: Settled)
        requires
            old(self).wf(),
        ensures
            final(self).wf(),
            settled == old(self)@.roster.verdict(id, mode, outcome is Some),
            final(self)@ == (State { roster: old(self)@.roster.settled(id, mode, outcome), ..old(self)@ }),
            final(self)@ == old(self)@.after(Event::Settled { id, mode, outcome }),
    {
        match outcome {
            Some(subject) => match mode {
                Mode::Stop => {
                    if self.registry.move_to_stopped(id, subject) {
                        Settled::Stopped
                    } else {
                        Settled::Ignored
                    }
                },
                Mode::Kill => {
                    if self.registry.move_to_killed(id, Some(subject)) {
                        Settled::Killed
                    } else {
                        Settled::Ignored
                    }
                },
            },
            None => {
                if self.registry.move_to_killed(id, None) {
                    Settled::Lost
                } else {
                    Settled::Ignored
                }
            },
        }
    }

    /// Gives up: kills every subject and tells the parent that the
    /// supervisor has faulted. This is what becomes of a supervisor whose
    /// inbox has come to its end or whose restart engine has failed.
    pub fn escalate(&mut self) -> (directive: Directive<S, H, M>)
        requires
            old(self).wf(),
        ensures
            final(self).wf(),
            final(self)@ == old(self)@.halted(0),
            final(self)@ == old(self)@.after(Event::Halted { start: 0 }),
            directive matches Directive::Terminate { halt, notice } && notice == Notice::Faulted
                && halt.carries(old(self)@.roster, Mode::Kill, 0),
    {
        let halt = self.kill(0);
        Directive::Terminate { halt, notice: Notice::Faulted }
    }

    /// The restart engine: answers a fault of the subject `id` as the
    /// strategy demands. One-for-one restarts `id` alone, which has to be
    /// running. One-for-all restarts every subject. Rest-for-one restarts
    /// `id`, which has to be launched, and every subject deployed after it.
    /// Where `id` is not what the strategy needs, the engine fails and
    /// nothing changes.
    pub fn recover(&mut self, id: Id) -> (recovery: Result<Recovery<H>, ()>)
        requires
            old(self).wf(),
        ensures
            final(self).wf(),
            recovery is Ok <==> old(self)@.recoverable(id),
            recovery matches Ok(how) ==> final(self)@ == old(self)@.recovering(id) && old(
                self,
            )@.recovers_with(id, how),
            recovery is Err ==> final(self)@ == old(self)@,
            final(self)@ == old(self)@.after(Event::Recovering { id }),
    {
        match self.strategy {
            SupervisionStrategy::OneForOne => {
                match self.registry.take_handle(id) {
                    Some((_, handle)) => Ok(Recovery::Single { id, handle, start: self.started }),
                    None => Err(()),
                }
            },
            SupervisionStrategy::OneForAll => {
                let halt = self.kill(0);
                Ok(Recovery::Bulk { from: 0, halt })
            },
            SupervisionStrategy::RestForOne => {
                match self.registry.ordinal_of(id) {
                    Some(start) => {
                        let halt = self.kill(start);
                        Ok(Recovery::Bulk { from: start, halt })
                    },
                    None => Err(()),
                }
            },
        }
    }

    /// Handles a control message as a started supervisor does.
    ///
    /// - `Stop` and `Kill` bring every subject down and end the loop.
    /// - `Deploy` asks for the new subject to be launched; a subject whose
    ///   identifier is already filed is dropped.
    /// - `SuperviseWith` replaces the strategy.
    /// - `Message` asks for the payload to be fanned out.
    /// - `Stopped` asks for the task of a running subject to be waited for.
    /// - `Faulted` calls the restart engine; if it fails, every subject is
    ///   killed, the fault is passed on to the parent and the loop ends.
    /// - `Start` and `Prune` change nothing.
    pub fn handle(&mut self, msg: ControlMessage<S, M>) -> (directive: Directive<S, H, M>)
        requires
            old(self).wf(),
        ensures
            final(self).wf(),
            final(self)@ == old(self)@.handled(msg),
            final(self)@ == old(self)@.after(Event::Handled(msg)),
            old(self)@.directs(msg, directive),
    {
        match msg {
            ControlMessage::Start => Directive::Nothing,
            ControlMessage::Stop => {
                let halt = self.stop(0);
                Directive::Terminate { halt, notice: Notice::Stopped }
            },
            ControlMessage::Kill => {
                let halt = self.kill(0);
                Directive::Terminate { halt, notice: Notice::Stopped }
            },
            ControlMessage::Deploy { id, subject } => {
                if self.registry.status(id).is_some() {
                    Directive::Nothing
                } else {
                    Directive::Launch(Launch { id, subject, start: self.started })
                }
            },
            ControlMessage::Prune { id: _ } => Directive::Nothing,
            ControlMessage::SuperviseWith(strategy) => {
                self.strategy = strategy;
                Directive::Nothing
            },
            ControlMessage::Message(payload) => Directive::Broadcast(payload),
            ControlMessage::Stopped { id } => {
                match self.registry.take_handle(id) {
                    Some((_, handle)) => Directive::Join { id, handle },
                    None => Directive::Nothing,
                }
            },
            ControlMessage::Faulted { id } => {
                match self.recover(id) {
                    Ok(recovery) => Directive::Recover(recovery),
                    Err(_) => self.escalate(),
                }
            },
        }
    }

    /// Takes a control message from the inbox. The first `Start` starts the
    /// supervisor and hands out what was buffered, to be handled in arrival
    /// order; a later one is ignored. Any other message is buffered until
    /// the supervisor is started and handled once it is.
    pub fn receive(&mut self, msg: ControlMessage<S, M>) -> (intake: Intake<S, H, M>)
        requires
            old(self).wf(),
        ensures
            final(self).wf(),
            final(self)@ == old(self)@.received(msg),
            final(self)@ == old(self)@.after(Event::Received(msg)),
            old(self)@.takes_in(msg, intake),
    {
        match msg {
            ControlMessage::Start => {
                if self.started {
                    Intake::Act(Directive::Nothing)
                } else {
                    self.started = true;

                    let mut replay: Vec<ControlMessage<S, M>> = Vec::new();
                    core::mem::swap(&mut self.pre_start_msgs, &mut replay);
                    Intake::Replay(replay)
                }
            },
            other => {
                if self.started {
                    Intake::Act(self.handle(other))
                } else {
                    self.pre_start_msgs.push(other);
                    Intake::Buffered
                }
            },
        }
    }

    /// Files a subject that has been launched: appends `id` to the order
    /// and files it under launched, with `handle` and the next ordinal.
    /// Returns whether it did: an identifier that is already filed is
    /// refused, and nothing changes.
    pub fn enlist(&mut self, id: Id, handle: H) -> (enlisted: bool)
        requires
            old(self).wf(),
        ensures
            final(self).wf(),
            enlisted == !old(self)@.roster.knows(id),
            enlisted ==> final(self)@ == (State {
                roster: old(self)@.roster.enlisted(id, handle),
                ..old(self)@
            }),
            !enlisted ==> final(self)@ == old(self)@,
            final(self)@ == old(self)@.after(Event::Enlisted { id, handle }),
    {
        self.registry.insert_launched(id, handle).is_some()
    }

    /// Ends a one-for-one restart of the subject `id`. `back` is what came
    /// of it: the identifier under which the subject runs again and the
    /// handle of its new task, or nothing where its old task or its reset
    /// gave nothing back. In the first case the subject takes the place it
    /// had: its new identifier stands in the order where the old one stood,
    /// and it is launched with the ordinal it had. This needs the subject
    /// to have been handed out by `Supervisor::recover`, and the new
    /// identifier to be the old one or one that is not filed. Otherwise the
    /// subject is filed under killed without a value and the restart has
    /// failed.
    pub fn recovered(&mut self, id: Id, back: Option<(Id, H)>) -> (done: Result<(), ()>)
        requires
            old(self).wf(),
        ensures
            final(self).wf(),
            done is Ok <==> (back matches Some(again) && old(self)@.roster.replaceable(id, again.0)),
            done is Ok ==> (back matches Some(again) && final(self)@ == (State {
                roster: old(self)@.roster.replaced(id, again.0, again.1),
                ..old(self)@
            })),
            done is Err ==> final(self)@ == (State {
                roster: old(self)@.roster.settled(id, Mode::Kill, None),
                ..old(self)@
            }),
            done is Ok ==> (back matches Some(again) && final(self)@ == old(self)@.after(
                Event::Replaced { old: id, new: again.0, handle: again.1 },
            )),
            done is Err ==> final(self)@ == old(self)@.after(
                Event::Settled { id, mode: Mode::Kill, outcome: None },
            ),
    {
        let replaced = match back {
            Some((new_id, handle)) => self.registry.replace(id, new_id, handle),
            None => false,
        };
        if replaced {
            Ok(())
        } else {
            self.registry.move_to_killed(id, None);
            Err(())
        }
    }

    /// Ends a restart of several subjects. `back` holds, in deployment
    /// order, the subjects that run again, each with its identifier and the
    /// handle of its new task; `complete` says whether these are all the
    /// subjects that were taken out. Each of them is filed as
    /// `Supervisor::enlist` says. The restart has failed if a subject is
    /// missing or refused.
    pub fn rebuilt(&mut self, back: Vec<(Id, H)>, complete: bool) -> (done: Result<(), ()>)
        requires
            old(self).wf(),
        ensures
            final(self).wf(),
            final(self)@ == (State { roster: old(self)@.roster.relaunched(back@), ..old(self)@ }),
            done is Ok <==> complete && old(self)@.roster.accepts(back@),
    {
        let ghost before = self@;
        let ghost all = back@;
        let mut accepted = true;
        proof {
            assert(all.take(0) =~= Seq::<(Id, H)>::empty());
        }
        for again in iter: back
            invariant
                before.wf(),
                self.wf(),
                iter.seq() == all,
                self@ == (State { roster: before.roster.relaunched(all.take(iter.index())), ..before }),
                accepted == before.roster.accepts(all.take(iter.index())),
        {
            proof {
                let wider = all.take(iter.index() + 1);
                assert(wider.drop_last() =~= all.take(iter.index()));
                assert(wider.last() == all[iter.index()]);
            }
            let (id, handle) = again;
            let enlisted = self.enlist(id, handle);
            accepted = accepted && enlisted;
        }
        proof {
            assert(all.take(all.len() as int) =~= all);
        }
        if complete && accepted {
            Ok(())
        } else {
            Err(())
        }
    }

    /// Goes on with a restart of the subjects from position `start` on,
    /// once they have been killed: takes them out of the registry, to be
    /// reset and launched again in deployment order. They come back with
    /// `Supervisor::rebuilt`, each at the position it had. The restart
    /// fails, and nothing changes, if one of them is not dormant with its
    /// value at hand.
    pub fn restart(&mut self, start: usize) -> (rebuild: Result<Rebuild<S>, ()>)
        requires
            old(self).wf(),
            start <= old(self)@.roster.order.len(),
        ensures
            final(self).wf(),
            rebuild is Ok <==> old(self)@.roster.restorable_from(start as int),
            rebuild matches Ok(plan) ==> {
                &&& plan.jobs@ == old(self)@.roster.jobs(start as int)
                &&& plan.start == old(self)@.started
                &&& final(self)@ == (State {
                    roster: old(self)@.roster.drained(start as int),
                    ..old(self)@
                })
            },
            rebuild is Err ==> final(self)@ == old(self)@,
            final(self)@ == old(self)@.after(Event::Restarted { start: start as nat }),
    {
        match self.registry.drain(start) {
            Some(jobs) => Ok(Rebuild { jobs, start: self.started }),
            None => Err(()),
        }
    }

    /// Resets the supervisor itself, once every subject has been killed:
    /// takes all the subjects out of the registry, to be reset and launched
    /// again in deployment order, empties the buffer and leaves the
    /// supervisor not started. If `inbox` holds a new identifier and inbox,
    /// the supervisor takes them. A start message is sent to the subjects
    /// that come back if the supervisor was started before. The reset
    /// fails, and nothing changes, if one of the subjects is not dormant
    /// with its value at hand.
    pub fn reset(&mut self, inbox: Option<(Id, Sender<S, M>)>) -> (rebuild: Result<Rebuild<S>, ()>)
        requires
            old(self).wf(),
        ensures
            final(self).wf(),
            rebuild is Ok <==> old(self)@.roster.restorable_from(0),
            rebuild matches Ok(plan) ==> {
                &&& plan.jobs@ == old(self)@.roster.jobs(0)
                &&& plan.start == old(self)@.started
                &&& final(self)@ == old(self)@.reset(inbox)
            },
            rebuild is Err ==> final(self)@ == old(self)@,
            final(self)@ == old(self)@.after(Event::Reset { inbox }),
    {
        match self.registry.drain(0) {
            Some(jobs) => {
                let start = self.started;
                match inbox {
                    Some((id, sender)) => {
                        self.id = id;
                        self.sender = sender;
                    },
                    None => {},
                }
                self.pre_start_msgs.clear();
                self.started = false;
                Ok(Rebuild { jobs, start })
            },
            None => Err(()),
        }
    }
}

} // verus!
