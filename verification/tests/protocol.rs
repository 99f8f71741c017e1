use futures::channel::mpsc::{unbounded, UnboundedReceiver};
use supervision::directive::{Directive, Halt, Intake, Launch, Rebuild, Recovery};
use supervision::message::{ControlMessage, Fanout, Hook, Mode, Notice};
use supervision::registry::{Job, Settled, Status};
use supervision::strategy::SupervisionStrategy;
use supervision::supervisor::Supervisor;

type Subject = &'static str;
// What waiting for the task of a subject gives back.
type Handle = Option<&'static str>;
type Payload = &'static str;
type Msg = ControlMessage<Subject, Payload>;
type Sup = Supervisor<Subject, Handle, Payload>;

// Runs a supervisor as a loop would, with subjects that stop and restart at
// once, and writes down what the transport and the subjects are asked.
struct Runner {
    supervisor: Sup,
    inbox: UnboundedReceiver<Msg>,
    seen: Vec<String>,
    next_id: u128,
    running: bool,
}

fn runner(strategy: SupervisionStrategy) -> Runner {
    let (sender, inbox) = unbounded::<Msg>();
    Runner {
        supervisor: Supervisor::new(1, sender).with_strategy(strategy),
        inbox,
        seen: Vec::new(),
        next_id: 100,
        running: true,
    }
}

fn started_with(strategy: SupervisionStrategy, subjects: &[(u128, Subject)]) -> Runner {
    let mut runner = runner(strategy);
    for (id, subject) in subjects {
        runner.deliver(ControlMessage::Deploy { id: *id, subject: *subject });
    }
    runner.deliver(ControlMessage::Start);
    runner.seen.clear();
    runner
}

impl Runner {
    fn note(&mut self, what: String) {
        self.seen.push(what);
    }

    fn hook(&mut self, hook: Hook, subject: Subject) {
        self.note(format!("{:?} {}", hook, subject));
    }

    fn deliver(&mut self, msg: Msg) {
        match self.supervisor.receive(msg) {
            Intake::Buffered => {}
            Intake::Replay(replay) => {
                self.note(format!("start all"));
                for msg in replay {
                    let directive = self.supervisor.handle(msg);
                    self.perform(directive);
                    if !self.running {
                        return;
                    }
                }
            }
            Intake::Act(directive) => self.perform(directive),
        }
    }

    fn halt(&mut self, halt: Halt<Handle>) {
        match &halt.fanout {
            Fanout::Group => self.note(format!("{:?} all", halt.mode)),
            Fanout::Each(ids) => {
                for id in ids {
                    self.note(format!("{:?} {}", halt.mode, id));
                }
            }
        }
        for (id, handle) in halt.joins {
            let settled = self.supervisor.settle(id, halt.mode, handle);
            if let Some(hook) = settled.hook() {
                let subject = *self.supervisor.dormant(id).unwrap();
                self.hook(hook, subject);
            }
        }
    }

    fn launch(&mut self, id: u128, subject: Subject, start: bool) -> Handle {
        self.note(format!("register {}", id));
        if start {
            self.note(format!("start {}", id));
        }
        self.note(format!("launch {}", subject));
        Some(subject)
    }

    // Resets the subjects and launches them again; `failing` names a
    // subject whose reset gives nothing back.
    fn rebuild(&mut self, rebuild: Rebuild<Subject>, failing: Option<Subject>) -> Result<(), ()> {
        let mut reset = Vec::new();
        for job in rebuild.jobs {
            if let Some(hook) = job.hook_before_reset() {
                self.hook(hook, job.subject);
            }
            // A killed subject comes back under a new identifier, a stopped
            // one under the one it had.
            let id = if job.killed {
                self.next_id += 1;
                self.next_id
            } else {
                job.id
            };
            reset.push((id, job.hook_after_reset(), job.subject));
        }
        let mut back = Vec::new();
        let mut complete = true;
        for (id, hook, subject) in reset {
            if Some(subject) == failing {
                complete = false;
            } else {
                self.hook(hook, subject);
                let handle = self.launch(id, subject, rebuild.start);
                back.push((id, handle));
            }
        }
        self.supervisor.rebuilt(back, complete)
    }

    fn escalate(&mut self) {
        let directive = self.supervisor.escalate();
        self.perform(directive);
    }

    fn perform(&mut self, directive: Directive<Subject, Handle, Payload>) {
        match directive {
            Directive::Nothing => {}
            Directive::Broadcast(payload) => self.note(format!("broadcast {}", payload)),
            Directive::Launch(launch) => {
                let hook = launch.hook();
                let Launch { id, subject, start } = launch;
                self.hook(hook, subject);
                let handle = self.launch(id, subject, start);
                assert!(self.supervisor.enlist(id, handle));
            }
            Directive::Join { id, handle } => {
                let settled = self.supervisor.settle(id, Mode::Stop, handle);
                if let Some(hook) = settled.hook() {
                    let subject = *self.supervisor.dormant(id).unwrap();
                    self.hook(hook, subject);
                }
                self.note(format!("unregister {}", id));
            }
            Directive::Recover(Recovery::Single { id, handle, start }) => {
                let single: Recovery<Handle> = Recovery::Single { id, handle, start };
                let before = single.hook_before_reset().unwrap();
                let after = single.hook_after_reset().unwrap();
                let back = match handle {
                    Some(subject) => {
                        self.hook(before, subject);
                        self.note(format!("unregister {}", id));
                        self.next_id += 1;
                        let new_id = self.next_id;
                        self.hook(after, subject);
                        Some((new_id, self.launch(new_id, subject, start)))
                    }
                    None => None,
                };
                if self.supervisor.recovered(id, back).is_err() {
                    self.escalate();
                }
            }
            Directive::Recover(Recovery::Bulk { from, halt }) => {
                self.halt(halt);
                let done = match self.supervisor.restart(from) {
                    Ok(rebuild) => self.rebuild(rebuild, None),
                    Err(()) => Err(()),
                };
                if done.is_err() {
                    self.escalate();
                }
            }
            Directive::Terminate { halt, notice } => {
                self.halt(halt);
                self.note(format!("notify {:?}", notice));
                self.running = false;
            }
        }
    }

    fn statuses(&self) -> Vec<(u128, Status)> {
        self.supervisor
            .order()
            .into_iter()
            .map(|id| (id, self.supervisor.status(id).unwrap()))
            .collect()
    }

    // The running subjects in deployment order, found by taking their
    // handles out.
    fn subjects(&mut self) -> Vec<(u128, Subject)> {
        self.supervisor
            .kill(0)
            .joins
            .into_iter()
            .map(|(id, handle)| (id, handle.unwrap()))
            .collect()
    }

    fn check_invariant(&self) {
        let order = self.supervisor.order();
        for (at, id) in order.iter().enumerate() {
            assert!(!order[..at].contains(id));
            match self.supervisor.status(*id) {
                Some(Status::Launched) => assert_eq!(self.supervisor.ordinal_of(*id), Some(at)),
                Some(_) => assert_eq!(self.supervisor.ordinal_of(*id), None),
                None => panic!("{} is in the order and not filed", id),
            }
        }
        if self.supervisor.started() {
            assert_eq!(self.supervisor.buffered(), 0);
        }
    }
}

#[test]
fn new_supervisor_is_empty_and_not_started() {
    let (sender, _inbox) = unbounded::<Msg>();
    let supervisor: Sup = Supervisor::new(7, sender);
    assert_eq!(supervisor.id(), 7);
    assert!(!supervisor.started());
    assert!(!supervisor.is_system_supervisor());
    assert_eq!(supervisor.strategy(), SupervisionStrategy::OneForOne);
    assert_eq!(supervisor.order(), Vec::<u128>::new());
    assert_eq!(supervisor.buffered(), 0);
    assert_eq!(supervisor.as_ref().id(), 7);
}

#[test]
fn system_supervisor_is_marked() {
    let (sender, _inbox) = unbounded::<Msg>();
    let supervisor: Sup = Supervisor::system(1, sender);
    assert!(supervisor.is_system_supervisor());
    assert!(!supervisor.started());
    assert_eq!(supervisor.strategy(), SupervisionStrategy::OneForOne);
}

#[test]
fn with_strategy_sets_the_strategy() {
    let (sender, _inbox) = unbounded::<Msg>();
    let supervisor: Sup = Supervisor::new(7, sender).with_strategy(SupervisionStrategy::OneForAll);
    assert_eq!(supervisor.strategy(), SupervisionStrategy::OneForAll);
    let supervisor = supervisor.with_strategy(SupervisionStrategy::RestForOne);
    assert_eq!(supervisor.strategy(), SupervisionStrategy::RestForOne);
    assert_eq!(supervisor.id(), 7);
}

#[test]
fn builders_put_deployments_into_the_own_inbox() {
    let (sender, mut inbox) = unbounded::<Msg>();
    let (child_sender, _child_inbox) = unbounded::<Msg>();
    let supervisor: Sup = Supervisor::new(7, sender);
    let mut supervisor = supervisor.supervisor(8, "child supervisor").children(9, "group");
    let child = supervisor.supervisor_ref(10, "other supervisor", child_sender);
    assert_eq!(child.id(), 10);
    assert!(supervisor.children_ref(11, "other group"));
    assert_eq!(supervisor.order(), Vec::<u128>::new());
    let got: Vec<Msg> = (0..4).map(|_| inbox.try_next().unwrap().unwrap()).collect();
    assert_eq!(
        got,
        vec![
            ControlMessage::Deploy { id: 8, subject: "child supervisor" },
            ControlMessage::Deploy { id: 9, subject: "group" },
            ControlMessage::Deploy { id: 10, subject: "other supervisor" },
            ControlMessage::Deploy { id: 11, subject: "other group" },
        ]
    );
    assert!(inbox.try_next().is_err());
}

#[test]
fn a_reference_reaches_the_inbox_of_its_supervisor() {
    let mut runner = runner(SupervisionStrategy::OneForOne);
    let sp_ref = runner.supervisor.as_ref();
    assert_eq!(sp_ref.strategy(SupervisionStrategy::OneForAll), Ok(()));
    assert_eq!(
        runner.inbox.try_next().unwrap(),
        Some(ControlMessage::SuperviseWith(SupervisionStrategy::OneForAll))
    );
}

#[test]
fn messages_are_buffered_until_start() {
    let mut runner = runner(SupervisionStrategy::OneForOne);
    for msg in [
        ControlMessage::Message("A"),
        ControlMessage::Deploy { id: 2, subject: "G" },
        ControlMessage::Stopped { id: 2 },
        ControlMessage::Faulted { id: 2 },
        ControlMessage::SuperviseWith(SupervisionStrategy::OneForAll),
        ControlMessage::Prune { id: 2 },
        ControlMessage::Stop,
        ControlMessage::Kill,
    ] {
        assert_eq!(runner.supervisor.receive(msg), Intake::Buffered);
    }
    assert_eq!(runner.supervisor.buffered(), 8);
    assert_eq!(runner.supervisor.order(), Vec::<u128>::new());
    assert_eq!(runner.supervisor.strategy(), SupervisionStrategy::OneForOne);
    assert!(!runner.supervisor.started());
}

#[test]
fn start_hands_the_buffer_out_in_arrival_order() {
    let mut runner = runner(SupervisionStrategy::OneForOne);
    runner.supervisor.receive(ControlMessage::Message("A"));
    runner.supervisor.receive(ControlMessage::Deploy { id: 2, subject: "G" });
    runner.supervisor.receive(ControlMessage::Message("B"));
    assert_eq!(
        runner.supervisor.receive(ControlMessage::Start),
        Intake::Replay(vec![
            ControlMessage::Message("A"),
            ControlMessage::Deploy { id: 2, subject: "G" },
            ControlMessage::Message("B"),
        ])
    );
    assert!(runner.supervisor.started());
    assert_eq!(runner.supervisor.buffered(), 0);
}

#[test]
fn pre_start_buffering() {
    let mut runner = runner(SupervisionStrategy::OneForOne);
    runner.deliver(ControlMessage::Message("A"));
    runner.deliver(ControlMessage::Deploy { id: 2, subject: "G" });
    assert_eq!(runner.seen, Vec::<String>::new());
    runner.deliver(ControlMessage::Start);
    // The buffer is replayed in arrival order: the payload is fanned out
    // when no subject is registered yet, then the subject is deployed and
    // started.
    assert_eq!(
        runner.seen,
        vec![
            "start all",
            "broadcast A",
            "BeforeStart G",
            "register 2",
            "start 2",
            "launch G",
        ]
    );
    assert_eq!(runner.statuses(), vec![(2, Status::Launched)]);
    assert_eq!(runner.supervisor.ordinal_of(2), Some(0));
    assert_eq!(runner.supervisor.buffered(), 0);
    runner.deliver(ControlMessage::Message("C"));
    assert_eq!(runner.seen.last().unwrap(), "broadcast C");
    assert_eq!(runner.supervisor.buffered(), 0);
}

#[test]
fn a_deployment_that_is_buffered_before_a_payload_is_started_before_it() {
    let mut runner = runner(SupervisionStrategy::OneForOne);
    runner.deliver(ControlMessage::Deploy { id: 2, subject: "G" });
    runner.deliver(ControlMessage::Message("A"));
    runner.deliver(ControlMessage::Start);
    assert_eq!(
        runner.seen,
        vec![
            "start all",
            "BeforeStart G",
            "register 2",
            "start 2",
            "launch G",
            "broadcast A",
        ]
    );
}

#[test]
fn a_second_start_is_ignored() {
    let mut runner = started_with(SupervisionStrategy::OneForOne, &[(2, "G1")]);
    assert_eq!(
        runner.supervisor.receive(ControlMessage::Start),
        Intake::Act(Directive::Nothing)
    );
    assert_eq!(runner.supervisor.handle(ControlMessage::Start), Directive::Nothing);
    assert!(runner.supervisor.started());
    assert_eq!(runner.statuses(), vec![(2, Status::Launched)]);
}

#[test]
fn prune_changes_nothing() {
    let mut runner = started_with(SupervisionStrategy::OneForOne, &[(2, "G1")]);
    assert_eq!(
        runner.supervisor.receive(ControlMessage::Prune { id: 2 }),
        Intake::Act(Directive::Nothing)
    );
    assert_eq!(runner.statuses(), vec![(2, Status::Launched)]);
    assert_eq!(runner.subjects(), vec![(2, "G1")]);
}

#[test]
fn deploy_after_start_sends_start() {
    let mut runner = started_with(SupervisionStrategy::OneForOne, &[]);
    assert_eq!(
        runner.supervisor.receive(ControlMessage::Deploy { id: 5, subject: "G" }),
        Intake::Act(Directive::Launch(Launch { id: 5, subject: "G", start: true }))
    );
    // Nothing is filed before the launch is reported.
    assert_eq!(runner.supervisor.status(5), None);
    assert!(runner.supervisor.enlist(5, Some("G")));
    assert_eq!(runner.supervisor.status(5), Some(Status::Launched));
    assert_eq!(runner.supervisor.ordinal_of(5), Some(0));
}

#[test]
fn handle_before_start_deploys_without_start() {
    let mut runner = runner(SupervisionStrategy::OneForOne);
    assert_eq!(
        runner.supervisor.handle(ControlMessage::Deploy { id: 5, subject: "G" }),
        Directive::Launch(Launch { id: 5, subject: "G", start: false })
    );
}

#[test]
fn a_deployment_under_a_filed_identifier_is_dropped() {
    let mut runner = started_with(SupervisionStrategy::OneForOne, &[(2, "G1")]);
    assert_eq!(
        runner.supervisor.receive(ControlMessage::Deploy { id: 2, subject: "impostor" }),
        Intake::Act(Directive::Nothing)
    );
    assert!(!runner.supervisor.enlist(2, Some("impostor")));
    assert_eq!(runner.subjects(), vec![(2, "G1")]);
}

#[test]
fn supervise_with_replaces_the_strategy() {
    let mut runner = started_with(SupervisionStrategy::OneForOne, &[(2, "G1")]);
    runner.deliver(ControlMessage::SuperviseWith(SupervisionStrategy::OneForAll));
    assert_eq!(runner.supervisor.strategy(), SupervisionStrategy::OneForAll);
    runner.deliver(ControlMessage::SuperviseWith(SupervisionStrategy::RestForOne));
    assert_eq!(runner.supervisor.strategy(), SupervisionStrategy::RestForOne);
    runner.deliver(ControlMessage::SuperviseWith(SupervisionStrategy::RestForOne));
    assert_eq!(runner.supervisor.strategy(), SupervisionStrategy::RestForOne);
    assert_eq!(runner.seen, Vec::<String>::new());
    assert_eq!(runner.statuses(), vec![(2, Status::Launched)]);
}

#[test]
fn buffered_strategies_are_replayed_and_the_last_one_stays() {
    let mut runner = runner(SupervisionStrategy::OneForOne);
    runner.deliver(ControlMessage::SuperviseWith(SupervisionStrategy::OneForAll));
    runner.deliver(ControlMessage::SuperviseWith(SupervisionStrategy::RestForOne));
    assert_eq!(runner.supervisor.strategy(), SupervisionStrategy::OneForOne);
    runner.deliver(ControlMessage::Start);
    assert_eq!(runner.supervisor.strategy(), SupervisionStrategy::RestForOne);
}

#[test]
fn broadcast_without_subjects_changes_nothing() {
    let mut runner = started_with(SupervisionStrategy::OneForOne, &[]);
    assert_eq!(
        runner.supervisor.receive(ControlMessage::Message("anybody?")),
        Intake::Act(Directive::Broadcast("anybody?"))
    );
    assert_eq!(runner.supervisor.order(), Vec::<u128>::new());
    assert!(runner.supervisor.started());
    assert_eq!(runner.supervisor.buffered(), 0);
    assert!(runner.running);
}

#[test]
fn stop_from_zero_uses_the_group_and_from_later_each_subject() {
    let mut runner = started_with(SupervisionStrategy::OneForOne, &[(2, "G1"), (3, "G2"), (4, "G3")]);
    let halt = runner.supervisor.stop(1);
    assert_eq!(
        halt,
        Halt {
            mode: Mode::Stop,
            fanout: Fanout::Each(vec![3, 4]),
            joins: vec![(3, Some("G2")), (4, Some("G3"))],
        }
    );
    let halt = runner.supervisor.stop(0);
    assert_eq!(
        halt,
        Halt { mode: Mode::Stop, fanout: Fanout::Group, joins: vec![(2, Some("G1"))] }
    );
    let halt = runner.supervisor.stop(3);
    assert_eq!(halt, Halt { mode: Mode::Stop, fanout: Fanout::Each(vec![]), joins: vec![] });
}

#[test]
fn kill_from_zero_uses_the_group_and_from_later_each_subject() {
    let mut runner = started_with(SupervisionStrategy::OneForOne, &[(2, "G1"), (3, "G2"), (4, "G3")]);
    let halt = runner.supervisor.kill(2);
    assert_eq!(
        halt,
        Halt { mode: Mode::Kill, fanout: Fanout::Each(vec![4]), joins: vec![(4, Some("G3"))] }
    );
    let halt = runner.supervisor.kill(0);
    assert_eq!(
        halt,
        Halt {
            mode: Mode::Kill,
            fanout: Fanout::Group,
            joins: vec![(2, Some("G1")), (3, Some("G2"))],
        }
    );
}

#[test]
fn kill_on_an_empty_supervisor() {
    let mut runner = started_with(SupervisionStrategy::OneForOne, &[]);
    let halt = runner.supervisor.kill(0);
    assert_eq!(halt, Halt { mode: Mode::Kill, fanout: Fanout::Group, joins: vec![] });
}

#[test]
fn settle_files_by_mode_and_outcome() {
    let mut runner = started_with(SupervisionStrategy::OneForOne, &[(2, "G1"), (3, "G2"), (4, "G3")]);
    assert_eq!(runner.supervisor.settle(2, Mode::Stop, Some("G1")), Settled::Ignored);
    assert_eq!(runner.supervisor.status(2), Some(Status::Launched));
    assert_eq!(runner.supervisor.stop(0).joins.len(), 3);
    assert_eq!(runner.supervisor.settle(2, Mode::Stop, Some("G1")), Settled::Stopped);
    assert_eq!(runner.supervisor.settle(3, Mode::Kill, Some("G2")), Settled::Killed);
    assert_eq!(runner.supervisor.settle(4, Mode::Stop, None), Settled::Lost);
    assert_eq!(runner.supervisor.settle(4, Mode::Stop, Some("G3")), Settled::Ignored);
    assert_eq!(runner.supervisor.settle(9, Mode::Kill, None), Settled::Ignored);
    assert_eq!(
        runner.statuses(),
        vec![(2, Status::Stopped), (3, Status::Killed), (4, Status::Killed)]
    );
    assert_eq!(runner.supervisor.dormant(2), Some(&"G1"));
    assert_eq!(runner.supervisor.dormant(3), Some(&"G2"));
    assert_eq!(runner.supervisor.dormant(4), None);
    runner.check_invariant();
}

#[test]
fn graceful_stop() {
    let mut runner = started_with(SupervisionStrategy::OneForOne, &[(2, "G1"), (3, "G2")]);
    runner.deliver(ControlMessage::Stop);
    assert_eq!(
        runner.seen,
        vec!["Stop all", "AfterStop G1", "AfterStop G2", "notify Stopped"]
    );
    assert!(!runner.running);
    assert_eq!(runner.statuses(), vec![(2, Status::Stopped), (3, Status::Stopped)]);
    assert_eq!(runner.supervisor.ordinal_of(2), None);
    assert_eq!(runner.supervisor.ordinal_of(3), None);
    runner.check_invariant();
}

#[test]
fn kill_message() {
    let mut runner = started_with(SupervisionStrategy::OneForOne, &[(2, "G1"), (3, "G2")]);
    assert_eq!(
        runner.supervisor.receive(ControlMessage::Kill),
        Intake::Act(Directive::Terminate {
            halt: Halt {
                mode: Mode::Kill,
                fanout: Fanout::Group,
                joins: vec![(2, Some("G1")), (3, Some("G2"))],
            },
            notice: Notice::Stopped,
        })
    );
    let mut runner = started_with(SupervisionStrategy::OneForOne, &[(2, "G1"), (3, "G2")]);
    runner.deliver(ControlMessage::Kill);
    assert_eq!(runner.seen, vec!["Kill all", "notify Stopped"]);
    assert!(!runner.running);
    assert_eq!(runner.statuses(), vec![(2, Status::Killed), (3, Status::Killed)]);
    runner.check_invariant();
}

#[test]
fn a_buffered_stop_ends_the_replay() {
    let mut runner = runner(SupervisionStrategy::OneForOne);
    runner.deliver(ControlMessage::Deploy { id: 2, subject: "G1" });
    runner.deliver(ControlMessage::Stop);
    runner.deliver(ControlMessage::Deploy { id: 3, subject: "G2" });
    runner.deliver(ControlMessage::Start);
    assert!(!runner.running);
    assert_eq!(runner.statuses(), vec![(2, Status::Stopped)]);
    assert_eq!(runner.supervisor.buffered(), 0);
}

#[test]
fn stopped_notification_moves_the_subject_to_stopped() {
    let mut runner = started_with(SupervisionStrategy::OneForOne, &[(2, "G1"), (3, "G2")]);
    assert_eq!(
        runner.supervisor.receive(ControlMessage::Stopped { id: 3 }),
        Intake::Act(Directive::Join { id: 3, handle: Some("G2") })
    );
    assert_eq!(runner.supervisor.status(3), Some(Status::Launched));
    assert_eq!(runner.supervisor.settle(3, Mode::Stop, Some("G2")), Settled::Stopped);
    assert_eq!(runner.statuses(), vec![(2, Status::Launched), (3, Status::Stopped)]);

    let mut runner = started_with(SupervisionStrategy::OneForOne, &[(2, "G1"), (3, "G2")]);
    runner.deliver(ControlMessage::Stopped { id: 3 });
    assert_eq!(runner.seen, vec!["AfterStop G2", "unregister 3"]);
    assert!(runner.running);
    runner.check_invariant();
}

#[test]
fn stopped_notification_of_an_unknown_subject_changes_nothing() {
    let mut runner = started_with(SupervisionStrategy::OneForOne, &[(2, "G1")]);
    assert_eq!(
        runner.supervisor.receive(ControlMessage::Stopped { id: 9 }),
        Intake::Act(Directive::Nothing)
    );
    runner.deliver(ControlMessage::Stopped { id: 2 });
    assert_eq!(
        runner.supervisor.receive(ControlMessage::Stopped { id: 2 }),
        Intake::Act(Directive::Nothing)
    );
    assert_eq!(runner.statuses(), vec![(2, Status::Stopped)]);
}

#[test]
fn one_for_one() {
    let mut runner = started_with(SupervisionStrategy::OneForOne, &[(2, "G1"), (3, "G2"), (4, "G3")]);
    runner.deliver(ControlMessage::Faulted { id: 3 });
    assert_eq!(
        runner.seen,
        vec![
            "BeforeRestart G2",
            "unregister 3",
            "AfterRestart G2",
            "register 101",
            "start 101",
            "launch G2",
        ]
    );
    assert!(runner.running);
    assert_eq!(runner.supervisor.order(), vec![2, 101, 4]);
    assert_eq!(runner.supervisor.ordinal_of(101), Some(1));
    assert_eq!(runner.supervisor.status(3), None);
    runner.check_invariant();
    assert_eq!(runner.subjects(), vec![(2, "G1"), (101, "G2"), (4, "G3")]);
}

#[test]
fn one_for_one_directive() {
    let mut runner = started_with(SupervisionStrategy::OneForOne, &[(2, "G1"), (3, "G2")]);
    assert_eq!(
        runner.supervisor.recover(3),
        Ok(Recovery::Single { id: 3, handle: Some("G2"), start: true })
    );
    // The subject stays filed under launched while it is restarted.
    assert_eq!(runner.supervisor.status(3), Some(Status::Launched));
    assert_eq!(runner.supervisor.ordinal_of(3), Some(1));
    // A second fault of the same subject cannot be answered meanwhile.
    assert_eq!(runner.supervisor.recover(3), Err(()));
    assert_eq!(runner.supervisor.recovered(3, Some((30, Some("G2 again")))), Ok(()));
    assert_eq!(runner.subjects(), vec![(2, "G1"), (30, "G2 again")]);
}

#[test]
fn one_for_all() {
    let mut runner = started_with(SupervisionStrategy::OneForAll, &[(2, "G1"), (3, "G2"), (4, "G3")]);
    runner.deliver(ControlMessage::Faulted { id: 3 });
    assert_eq!(
        runner.seen,
        vec![
            "Kill all",
            "BeforeRestart G1",
            "BeforeRestart G2",
            "BeforeRestart G3",
            "AfterRestart G1",
            "register 101",
            "start 101",
            "launch G1",
            "AfterRestart G2",
            "register 102",
            "start 102",
            "launch G2",
            "AfterRestart G3",
            "register 103",
            "start 103",
            "launch G3",
        ]
    );
    assert!(runner.running);
    assert_eq!(runner.supervisor.order(), vec![101, 102, 103]);
    assert_eq!(
        runner.statuses(),
        vec![(101, Status::Launched), (102, Status::Launched), (103, Status::Launched)]
    );
    for old in [2, 3, 4] {
        assert_eq!(runner.supervisor.status(old), None);
    }
    runner.check_invariant();
    assert_eq!(runner.subjects(), vec![(101, "G1"), (102, "G2"), (103, "G3")]);
}

#[test]
fn one_for_all_does_not_look_at_the_identifier() {
    let mut runner = started_with(SupervisionStrategy::OneForAll, &[(2, "G1"), (3, "G2")]);
    runner.deliver(ControlMessage::Faulted { id: 99 });
    assert!(runner.running);
    assert_eq!(runner.supervisor.order(), vec![101, 102]);
    assert_eq!(runner.subjects(), vec![(101, "G1"), (102, "G2")]);
}

#[test]
fn rest_for_one() {
    let mut runner = started_with(SupervisionStrategy::RestForOne, &[(2, "G1"), (3, "G2"), (4, "G3")]);
    runner.deliver(ControlMessage::Faulted { id: 3 });
    assert_eq!(
        runner.seen,
        vec![
            "Kill 3",
            "Kill 4",
            "BeforeRestart G2",
            "BeforeRestart G3",
            "AfterRestart G2",
            "register 101",
            "start 101",
            "launch G2",
            "AfterRestart G3",
            "register 102",
            "start 102",
            "launch G3",
        ]
    );
    assert!(runner.running);
    assert_eq!(runner.supervisor.order(), vec![2, 101, 102]);
    assert_eq!(runner.supervisor.ordinal_of(2), Some(0));
    assert_eq!(runner.supervisor.ordinal_of(101), Some(1));
    assert_eq!(runner.supervisor.ordinal_of(102), Some(2));
    runner.check_invariant();
    assert_eq!(runner.subjects(), vec![(2, "G1"), (101, "G2"), (102, "G3")]);
}

#[test]
fn rest_for_one_of_the_first_subject_uses_the_group() {
    let mut runner = started_with(SupervisionStrategy::RestForOne, &[(2, "G1"), (3, "G2")]);
    assert_eq!(
        runner.supervisor.recover(2),
        Ok(Recovery::Bulk {
            from: 0,
            halt: Halt {
                mode: Mode::Kill,
                fanout: Fanout::Group,
                joins: vec![(2, Some("G1")), (3, Some("G2"))],
            },
        })
    );
}

#[test]
fn rest_for_one_of_the_last_subject() {
    let mut runner = started_with(SupervisionStrategy::RestForOne, &[(2, "G1"), (3, "G2")]);
    runner.deliver(ControlMessage::Faulted { id: 3 });
    assert_eq!(runner.supervisor.order(), vec![2, 101]);
    assert_eq!(runner.subjects(), vec![(2, "G1"), (101, "G2")]);
}

#[test]
fn a_stopped_subject_comes_back_with_the_same_ordinal() {
    let mut runner = started_with(SupervisionStrategy::OneForAll, &[(2, "G1"), (3, "G2"), (4, "G3")]);
    runner.deliver(ControlMessage::Stopped { id: 3 });
    assert_eq!(runner.supervisor.status(3), Some(Status::Stopped));
    runner.seen.clear();
    runner.deliver(ControlMessage::Faulted { id: 2 });
    assert_eq!(
        runner.seen,
        vec![
            "Kill all",
            "BeforeRestart G1",
            "BeforeRestart G3",
            "AfterRestart G1",
            "register 101",
            "start 101",
            "launch G1",
            "BeforeStart G2",
            "register 3",
            "start 3",
            "launch G2",
            "AfterRestart G3",
            "register 102",
            "start 102",
            "launch G3",
        ]
    );
    assert_eq!(runner.supervisor.order(), vec![101, 3, 102]);
    assert_eq!(runner.supervisor.status(3), Some(Status::Launched));
    assert_eq!(runner.supervisor.ordinal_of(3), Some(1));
    runner.check_invariant();
    assert_eq!(runner.subjects(), vec![(101, "G1"), (3, "G2"), (102, "G3")]);
}

#[test]
fn restart_hands_the_jobs_out_in_deployment_order() {
    let mut runner = started_with(SupervisionStrategy::OneForAll, &[(2, "G1"), (3, "G2"), (4, "G3")]);
    runner.deliver(ControlMessage::Stopped { id: 3 });
    let halt = runner.supervisor.kill(1);
    runner.halt(halt);
    assert_eq!(
        runner.supervisor.restart(1),
        Ok(Rebuild {
            jobs: vec![
                Job { id: 3, subject: "G2", killed: false },
                Job { id: 4, subject: "G3", killed: true },
            ],
            start: true,
        })
    );
    assert_eq!(runner.supervisor.order(), vec![2]);
    assert_eq!(runner.supervisor.status(3), None);
    assert_eq!(runner.supervisor.status(4), None);
    runner.check_invariant();
}

#[test]
fn restart_fails_while_a_subject_of_the_range_is_launched() {
    let mut runner = started_with(SupervisionStrategy::OneForAll, &[(2, "G1"), (3, "G2")]);
    assert_eq!(runner.supervisor.restart(0), Err(()));
    assert_eq!(runner.supervisor.restart(1), Err(()));
    assert_eq!(runner.supervisor.restart(2), Ok(Rebuild { jobs: vec![], start: true }));
    assert_eq!(runner.statuses(), vec![(2, Status::Launched), (3, Status::Launched)]);
}

#[test]
fn escalation() {
    let mut runner = started_with(SupervisionStrategy::OneForOne, &[(2, "G1")]);
    runner.deliver(ControlMessage::Faulted { id: 99 });
    assert_eq!(runner.seen, vec!["Kill all", "notify Faulted"]);
    assert!(!runner.running);
    assert_eq!(runner.statuses(), vec![(2, Status::Killed)]);
    assert_eq!(runner.supervisor.dormant(2), Some(&"G1"));
    runner.check_invariant();
}

#[test]
fn escalation_directive() {
    let mut runner = started_with(SupervisionStrategy::RestForOne, &[(2, "G1"), (3, "G2")]);
    assert_eq!(runner.supervisor.recover(99), Err(()));
    assert_eq!(runner.statuses(), vec![(2, Status::Launched), (3, Status::Launched)]);
    assert_eq!(
        runner.supervisor.receive(ControlMessage::Faulted { id: 99 }),
        Intake::Act(Directive::Terminate {
            halt: Halt {
                mode: Mode::Kill,
                fanout: Fanout::Group,
                joins: vec![(2, Some("G1")), (3, Some("G2"))],
            },
            notice: Notice::Faulted,
        })
    );
}

#[test]
fn a_fault_of_a_dormant_subject_escalates_under_one_for_one_and_rest_for_one() {
    for strategy in [SupervisionStrategy::OneForOne, SupervisionStrategy::RestForOne] {
        let mut runner = started_with(strategy, &[(2, "G1"), (3, "G2")]);
        runner.deliver(ControlMessage::Stopped { id: 3 });
        runner.seen.clear();
        runner.deliver(ControlMessage::Faulted { id: 3 });
        assert_eq!(runner.seen, vec!["Kill all", "notify Faulted"]);
        assert!(!runner.running);
        assert_eq!(runner.statuses(), vec![(2, Status::Killed), (3, Status::Stopped)]);
    }
}

#[test]
fn a_closed_inbox_escalates() {
    let mut runner = started_with(SupervisionStrategy::OneForOne, &[(2, "G1"), (3, "G2")]);
    runner.escalate();
    assert_eq!(runner.seen, vec!["Kill all", "notify Faulted"]);
    assert!(!runner.running);
    assert_eq!(runner.statuses(), vec![(2, Status::Killed), (3, Status::Killed)]);
}

#[test]
fn a_task_that_gives_nothing_back_is_filed_under_killed() {
    let mut runner = started_with(SupervisionStrategy::OneForAll, &[(2, "G1"), (3, "G2")]);
    let halt = runner.supervisor.stop(0);
    assert_eq!(halt.joins.len(), 2);
    assert_eq!(runner.supervisor.settle(2, Mode::Stop, None), Settled::Lost);
    assert_eq!(runner.supervisor.settle(3, Mode::Stop, Some("G2")), Settled::Stopped);
    assert_eq!(runner.statuses(), vec![(2, Status::Killed), (3, Status::Stopped)]);
    // The lost subject cannot be reset: a restart that covers it fails and
    // changes nothing, one that does not goes through.
    assert_eq!(runner.supervisor.restart(0), Err(()));
    assert_eq!(runner.statuses(), vec![(2, Status::Killed), (3, Status::Stopped)]);
    assert_eq!(
        runner.supervisor.restart(1),
        Ok(Rebuild { jobs: vec![Job { id: 3, subject: "G2", killed: false }], start: true })
    );
    runner.check_invariant();
}

#[test]
fn one_for_one_of_a_task_that_gives_nothing_back_escalates() {
    let mut runner = started_with(SupervisionStrategy::OneForOne, &[(2, "G1"), (3, "G2")]);
    match runner.supervisor.receive(ControlMessage::Faulted { id: 3 }) {
        Intake::Act(Directive::Recover(Recovery::Single { id, handle: _, start })) => {
            assert_eq!(id, 3);
            assert!(start);
            runner.perform(Directive::Recover(Recovery::Single { id, handle: None, start }));
        }
        other => panic!("unexpected {:?}", other),
    }
    assert_eq!(runner.seen, vec!["Kill all", "notify Faulted"]);
    assert_eq!(runner.statuses(), vec![(2, Status::Killed), (3, Status::Killed)]);
    assert_eq!(runner.supervisor.dormant(3), None);
    assert_eq!(runner.supervisor.dormant(2), Some(&"G1"));
}

#[test]
fn reset_rebuilds_everything_and_unstarts() {
    let mut runner = started_with(SupervisionStrategy::RestForOne, &[(2, "G1"), (3, "G2")]);
    runner.deliver(ControlMessage::Stopped { id: 2 });
    let halt = runner.supervisor.kill(0);
    runner.halt(halt);
    let (sender, mut new_inbox) = unbounded::<Msg>();
    let rebuild = runner.supervisor.reset(Some((50, sender)));
    assert_eq!(
        rebuild,
        Ok(Rebuild {
            jobs: vec![
                Job { id: 2, subject: "G1", killed: false },
                Job { id: 3, subject: "G2", killed: true },
            ],
            start: true,
        })
    );
    assert_eq!(runner.supervisor.id(), 50);
    assert!(!runner.supervisor.started());
    assert_eq!(runner.supervisor.buffered(), 0);
    assert_eq!(runner.supervisor.order(), Vec::<u128>::new());
    assert_eq!(runner.supervisor.strategy(), SupervisionStrategy::RestForOne);
    assert_eq!(runner.rebuild(rebuild.unwrap(), None), Ok(()));
    assert_eq!(runner.supervisor.order(), vec![2, 101]);
    runner.check_invariant();
    // The reference now reaches the new inbox.
    assert_eq!(runner.supervisor.as_ref().id(), 50);
    assert_eq!(runner.supervisor.as_ref().stop(), Ok(()));
    assert_eq!(new_inbox.try_next().unwrap(), Some(ControlMessage::Stop));
    // The old inbox has lost its last sending end.
    assert!(matches!(runner.inbox.try_next(), Ok(None)));
    // Messages are buffered again until the next start.
    assert_eq!(runner.supervisor.receive(ControlMessage::Message("early")), Intake::Buffered);
    assert_eq!(runner.supervisor.buffered(), 1);
    assert_eq!(
        runner.supervisor.receive(ControlMessage::Start),
        Intake::Replay(vec![ControlMessage::Message("early")])
    );
    assert!(runner.supervisor.started());
    assert_eq!(runner.supervisor.buffered(), 0);
}

#[test]
fn reset_without_a_new_inbox_keeps_the_identifier() {
    let mut runner = runner(SupervisionStrategy::OneForOne);
    runner.deliver(ControlMessage::Deploy { id: 2, subject: "G1" });
    assert_eq!(runner.supervisor.buffered(), 1);
    let rebuild = runner.supervisor.reset(None);
    assert_eq!(rebuild, Ok(Rebuild { jobs: vec![], start: false }));
    assert_eq!(runner.supervisor.id(), 1);
    assert_eq!(runner.supervisor.buffered(), 0);
    assert!(!runner.supervisor.started());
}

#[test]
fn reset_fails_while_a_subject_is_launched() {
    let mut runner = started_with(SupervisionStrategy::OneForOne, &[(2, "G1")]);
    assert_eq!(runner.supervisor.reset(None), Err(()));
    assert!(runner.supervisor.started());
    assert_eq!(runner.statuses(), vec![(2, Status::Launched)]);
}

#[test]
fn the_invariant_holds_along_a_long_run() {
    let mut runner = runner(SupervisionStrategy::OneForOne);
    let script = vec![
        ControlMessage::Deploy { id: 2, subject: "G1" },
        ControlMessage::Message("early"),
        ControlMessage::Deploy { id: 3, subject: "G2" },
        ControlMessage::Start,
        ControlMessage::Deploy { id: 4, subject: "G3" },
        ControlMessage::Faulted { id: 3 },
        ControlMessage::Stopped { id: 2 },
        ControlMessage::SuperviseWith(SupervisionStrategy::RestForOne),
        ControlMessage::Faulted { id: 101 },
        ControlMessage::Deploy { id: 5, subject: "G4" },
        ControlMessage::Start,
        ControlMessage::SuperviseWith(SupervisionStrategy::OneForAll),
        ControlMessage::Faulted { id: 5 },
        ControlMessage::Stopped { id: 2 },
        ControlMessage::Message("late"),
        ControlMessage::Stop,
    ];
    for msg in script {
        runner.deliver(msg);
        runner.check_invariant();
    }
    assert!(!runner.running);
    let order = runner.supervisor.order();
    assert_eq!(order.len(), 4);
    assert_eq!(order[0], 2);
    for id in order {
        assert_eq!(runner.supervisor.status(id), Some(Status::Stopped));
    }
    let stopped: Vec<Subject> = runner
        .supervisor
        .order()
        .into_iter()
        .map(|id| *runner.supervisor.dormant(id).unwrap())
        .collect();
    assert_eq!(stopped, vec!["G1", "G2", "G3", "G4"]);
}

#[test]
fn recovered_puts_the_subject_back_or_files_it_as_lost() {
    let mut runner = started_with(SupervisionStrategy::OneForOne, &[(2, "G1"), (3, "G2")]);
    assert_eq!(runner.supervisor.recovered(3, Some((30, Some("G2")))), Err(()));
    assert_eq!(runner.statuses(), vec![(2, Status::Launched), (3, Status::Launched)]);
    assert!(runner.supervisor.recover(3).is_ok());
    assert_eq!(runner.supervisor.recovered(3, Some((2, Some("G2")))), Err(()));
    assert_eq!(runner.statuses(), vec![(2, Status::Launched), (3, Status::Killed)]);
    assert_eq!(runner.supervisor.dormant(3), None);

    let mut runner = started_with(SupervisionStrategy::OneForOne, &[(2, "G1"), (3, "G2")]);
    assert!(runner.supervisor.recover(2).is_ok());
    assert_eq!(runner.supervisor.recovered(2, Some((20, Some("G1 again")))), Ok(()));
    assert_eq!(runner.supervisor.order(), vec![20, 3]);
    assert_eq!(runner.subjects(), vec![(20, "G1 again"), (3, "G2")]);

    let mut runner = started_with(SupervisionStrategy::OneForOne, &[(2, "G1"), (3, "G2")]);
    assert!(runner.supervisor.recover(2).is_ok());
    assert_eq!(runner.supervisor.recovered(2, None), Err(()));
    assert_eq!(runner.statuses(), vec![(2, Status::Killed), (3, Status::Launched)]);
}

#[test]
fn rebuilt_files_the_subjects_in_the_order_given() {
    let mut runner = started_with(SupervisionStrategy::OneForAll, &[(2, "G1")]);
    assert_eq!(
        runner.supervisor.rebuilt(vec![(5, Some("G2")), (6, Some("G3"))], true),
        Ok(())
    );
    assert_eq!(runner.supervisor.order(), vec![2, 5, 6]);
    assert_eq!(runner.supervisor.ordinal_of(5), Some(1));
    assert_eq!(runner.supervisor.ordinal_of(6), Some(2));
    assert_eq!(runner.supervisor.rebuilt(vec![], true), Ok(()));
    assert_eq!(runner.supervisor.rebuilt(vec![], false), Err(()));
    assert_eq!(runner.supervisor.rebuilt(vec![(7, Some("G4"))], false), Err(()));
    assert_eq!(runner.supervisor.order(), vec![2, 5, 6, 7]);
    // A filed identifier is refused; the others are filed all the same.
    assert_eq!(
        runner.supervisor.rebuilt(vec![(8, Some("G5")), (5, Some("twin")), (9, Some("G6"))], true),
        Err(())
    );
    assert_eq!(runner.supervisor.order(), vec![2, 5, 6, 7, 8, 9]);
    assert_eq!(
        runner.subjects(),
        vec![(2, "G1"), (5, "G2"), (6, "G3"), (7, "G4"), (8, "G5"), (9, "G6")]
    );
}

#[test]
fn a_reset_that_gives_nothing_back_escalates() {
    let mut runner = started_with(SupervisionStrategy::OneForAll, &[(2, "G1"), (3, "G2"), (4, "G3")]);
    match runner.supervisor.receive(ControlMessage::Faulted { id: 2 }) {
        Intake::Act(Directive::Recover(Recovery::Bulk { from, halt })) => {
            assert_eq!(from, 0);
            runner.halt(halt);
            let rebuild = runner.supervisor.restart(from).unwrap();
            assert_eq!(runner.rebuild(rebuild, Some("G2")), Err(()));
        }
        other => panic!("unexpected {:?}", other),
    }
    // The subjects that came back run again, the other one is gone.
    assert_eq!(runner.statuses(), vec![(101, Status::Launched), (103, Status::Launched)]);
    runner.seen.clear();
    runner.escalate();
    assert_eq!(runner.seen, vec!["Kill all", "notify Faulted"]);
    assert_eq!(runner.statuses(), vec![(101, Status::Killed), (103, Status::Killed)]);
    assert_eq!(runner.supervisor.dormant(101), Some(&"G1"));
    assert_eq!(runner.supervisor.dormant(103), Some(&"G3"));
    runner.check_invariant();
}

#[test]
fn hooks_of_launches_and_recoveries() {
    let launch = Launch { id: 2, subject: "G1", start: true };
    assert_eq!(launch.hook(), Hook::BeforeStart);
    let single: Recovery<Handle> = Recovery::Single { id: 2, handle: Some("G1"), start: false };
    assert_eq!(single.hook_before_reset(), Some(Hook::BeforeRestart));
    assert_eq!(single.hook_after_reset(), Some(Hook::AfterRestart));
    let bulk: Recovery<Handle> = Recovery::Bulk {
        from: 0,
        halt: Halt { mode: Mode::Kill, fanout: Fanout::Group, joins: vec![] },
    };
    assert_eq!(bulk.hook_before_reset(), None);
    assert_eq!(bulk.hook_after_reset(), None);
}
