//! The ordered registry of supervised subjects.
//!
//! A registry keeps the identifiers of its subjects in deployment order and
//! files each of them under exactly one of three headings: launched, stopped
//! or killed. A launched subject carries its ordinal, which is its position
//! in the order, and the handle of its running task. The handle is taken out
//! while somebody waits for the task to end; the subject stays filed under
//! launched until the outcome of that wait is reported.
use crate::message::{Hook, Id, Mode};
use crate::roster::Roster;
use crate::table;
use fxhash::FxHashMap;
use vstd::prelude::*;

verus! {

/// Under which heading a subject is filed.
#[derive(Debug, Clone, Copy, PartialEq, Eq)]
pub enum Status {
    Launched,
    Stopped,
    Killed,
}

/// What became of a subject whose task has ended.
#[derive(Debug, Clone, Copy, PartialEq, Eq)]
pub enum Settled {
    /// It is filed under stopped; its after-stop hook is due.
    Stopped,
    /// It is filed under killed, with its value.
    Killed,
    /// Its task gave no value back: it is filed under killed without one.
    Lost,
    /// Nobody was waiting for this subject: nothing changed.
    Ignored,
}

/// A dormant subject taken out of the registry in order to be reset.
#[derive(Debug, PartialEq)]
pub struct Job<S> {
    /// The identifier under which the subject was filed.
    pub id: Id,
    /// The subject itself.
    pub subject: S,
    /// Whether it was filed under killed (otherwise under stopped).
    pub killed: bool,
}

impl Settled {
    /// The hook that is due on a subject filed like this: after-stop where
    /// it stopped gracefully, none otherwise.
    pub fn hook(self) -> (hook: Option<Hook>)
        ensures
            hook == (if self == Settled::Stopped {
                Some(Hook::AfterStop)
            } else {
                None
            }),
    {
        match self {
            Settled::Stopped => Some(Hook::AfterStop),
            _ => None,
        }
    }
}

impl<S> Job<S> {
    /// The hook that is due before the reset: before-restart on a subject
    /// that was killed, none on one that was stopped.
    pub fn hook_before_reset(&self) -> (hook: Option<Hook>)
        ensures
            hook == (if self.killed {
                Some(Hook::BeforeRestart)
            } else {
                None
            }),
    {
        if self.killed {
            Some(Hook::BeforeRestart)
        } else {
            None
        }
    }

    /// The hook that is due after the reset: after-restart on a subject
    /// that was killed, before-start on one that was stopped.
    pub fn hook_after_reset(&self) -> (hook: Hook)
        ensures
            hook == (if self.killed {
                Hook::AfterRestart
            } else {
                Hook::BeforeStart
            }),
    {
        if self.killed {
            Hook::AfterRestart
        } else {
            Hook::BeforeStart
        }
    }
}

/// The registry of a supervisor.
#[derive(Debug)]
pub struct Registry<S, H> {
    order: Vec<Id>,
    launched: FxHashMap<Id, (usize, Option<H>)>,
    stopped: FxHashMap<Id, S>,
    killed: FxHashMap<Id, Option<S>>,
}

impl<S, H> View for Registry<S, H> {
    type V = Roster<S, H>;

    closed spec fn view(&self) -> Roster<S, H> {
        Roster {
            order: self.order@,
            launched: self.launched@,
            stopped: self.stopped@,
            killed: self.killed@,
        }
    }
}

impl<S, H> Registry<S, H> {
    /// The invariant of the registry: that of its roster.
    pub open spec fn wf(&self) -> bool {
        self@.wf()
    }

    /// Creates a registry without any subject.
    pub fn new() -> (registry: Self)
        ensures
            registry.wf(),
            registry@ == Roster::<S, H>::empty(),
    {
        Registry {
            order: Vec::new(),
            launched: FxHashMap::default(),
            stopped: FxHashMap::default(),
            killed: FxHashMap::default(),
        }
    }

    /// The number of subjects.
    pub fn len(&self) -> (n: usize)
        ensures
            n == self@.order.len(),
    {
        self.order.len()
    }

    /// The identifiers from position `start` on, in deployment order.
    pub fn ordinals_at_or_after(&self, start: usize) -> (ids: Vec<Id>)
        requires
            start <= self@.order.len(),
        ensures
            ids@ == self@.order.subrange(start as int, self@.order.len() as int),
    {
        let mut ids: Vec<Id> = Vec::new();
        let mut i: usize = start;
        while i < self.order.len()
            invariant
                start <= i <= self.order.len(),
                ids@ == self.order@.subrange(start as int, i as int),
            decreases self.order.len() - i,
        {
            ids.push(self.order[i]);
            i += 1;
        }
        ids
    }

    /// Under which heading `id` is filed, if it is filed at all.
    pub fn status(&self, id: Id) -> (status: Option<Status>)
        requires
            self.wf(),
        ensures
            status == Some(Status::Launched) <==> self@.launched.contains_key(id),
            status == Some(Status::Stopped) <==> self@.stopped.contains_key(id),
            status == Some(Status::Killed) <==> self@.killed.contains_key(id),
            status is None <==> !self@.knows(id),
    {
        if table::get(&self.launched, id).is_some() {
            Some(Status::Launched)
        } else if table::get(&self.stopped, id).is_some() {
            Some(Status::Stopped)
        } else if table::get(&self.killed, id).is_some() {
            Some(Status::Killed)
        } else {
            None
        }
    }

    /// The ordinal of `id`, if it is launched.
    pub fn ordinal_of(&self, id: Id) -> (ordinal: Option<usize>)
        ensures
            ordinal == (if self@.launched.contains_key(id) {
                Some(self@.launched[id].0)
            } else {
                None
            }),
    {
        match table::get(&self.launched, id) {
            Some(entry) => Some(entry.0),
            None => None,
        }
    }

    /// The value of the dormant subject `id`, if it is at hand.
    pub fn dormant(&self, id: Id) -> (subject: Option<&S>)
        requires
            self.wf(),
        ensures
            subject is Some <==> self@.restorable(id),
            subject is Some ==> *subject->0 == self@.job_of(id).subject,
    {
        match table::get(&self.stopped, id) {
            Some(subject) => Some(subject),
            None => match table::get(&self.killed, id) {
                Some(Some(subject)) => Some(subject),
                _ => None,
            },
        }
    }

    /// Appends a new subject to the order and files it under launched, with
    /// the length of the order as its ordinal, which is returned. An
    /// identifier that is already filed is refused and nothing changes.
    pub fn insert_launched(&mut self, id: Id, handle: H) -> (ordinal: Option<usize>)
        requires
            old(self).wf(),
        ensures
            final(self).wf(),
            old(self)@.knows(id) ==> ordinal is None && final(self)@ == old(self)@,
            !old(self)@.knows(id) ==> ordinal == Some(old(self)@.order.len() as usize) && final(self)@
                == old(self)@.enlisted(id, handle),
    {
        if self.status(id).is_some() {
            return None;
        }
        let ordinal = self.order.len();
        table::insert(&mut self.launched, id, (ordinal, Some(handle)));
        self.order.push(id);
        proof {
            assert(self.order.len() == self.order@.len());
            assert(self@ =~= old(self)@.enlisted(id, handle));
            old(self)@.lemma_enlisted(id, handle);
        }
        Some(ordinal)
    }

    /// Takes the handle of the running subject `id` out, to wait for its
    /// task, and returns it with the subject's ordinal. The subject stays
    /// filed under launched.
    pub fn take_handle(&mut self, id: Id) -> (taken: Option<(usize, H)>)
        requires
            old(self).wf(),
        ensures
            final(self).wf(),
            final(self)@ == old(self)@.taken(id),
            taken == (if old(self)@.running(id) {
                Some((old(self)@.launched[id].0, old(self)@.launched[id].1->0))
            } else {
                None
            }),
    {
        let taken = match table::remove(&mut self.launched, id) {
            Some((ordinal, Some(handle))) => {
                table::insert(&mut self.launched, id, (ordinal, None));
                Some((ordinal, handle))
            },
            Some((ordinal, None)) => {
                table::insert(&mut self.launched, id, (ordinal, None));
                None
            },
            None => None,
        };
        proof {
            assert(self.launched@ =~= old(self)@.taken(id).launched);
            assert(self@ =~= old(self)@.taken(id));
            old(self)@.lemma_taken(id);
        }
        taken
    }

    /// Takes the handles of the running subjects from position `start` on
    /// out, to wait for their tasks, and returns them in deployment order,
    /// each with the identifier of its subject.
    pub fn take_handles_from(&mut self, start: usize) -> (joins: Vec<(Id, H)>)
        requires
            old(self).wf(),
            start <= old(self)@.order.len(),
        ensures
            final(self).wf(),
            final(self)@ == old(self)@.checked_out(start as int, old(self)@.order.len() as int),
            joins@ == old(self)@.joins(start as int, old(self)@.order.len() as int),
    {
        let ghost before = self@;
        let mut joins: Vec<(Id, H)> = Vec::new();
        let mut i: usize = start;
        proof {
            assert(self@ =~= before.checked_out(start as int, start as int));
            assert(before.order.subrange(start as int, start as int) =~= Seq::<Id>::empty());
        }
        while i < self.order.len()
            invariant
                start <= i <= self.order.len(),
                before.wf(),
                self.wf(),
                self@ == before.checked_out(start as int, i as int),
                joins@ == before.joins(start as int, i as int),
            decreases self.order.len() - i,
        {
            let id = self.order[i];
            proof {
                // The subject at position `i` is the only one with ordinal `i`.
                assert(before.knows(before.order[i as int]));
                if before.launched.contains_key(id) {
                    assert(before.order[before.launched[id].0 as int] == id);
                }
                assert forall|k: Id| before.launched.contains_key(k) && before.launched[k].0 == i implies k
                    == id by {
                    assert(before.order[before.launched[k].0 as int] == k);
                }
                let wider = before.order.subrange(start as int, i + 1);
                assert(wider.drop_last() =~= before.order.subrange(start as int, i as int));
                assert(wider.last() == id);
            }
            match self.take_handle(id) {
                Some((_, handle)) => {
                    joins.push((id, handle));
                },
                None => {},
            }
            proof {
                assert(self@ =~= before.checked_out(start as int, i + 1));
            }
            i += 1;
        }
        joins
    }

    /// Files the launched subject `id`, whose handle is out, under stopped
    /// with the value that its task gave back. Returns whether it did; if
    /// nobody was waiting for `id`, nothing changes.
    pub fn move_to_stopped(&mut self, id: Id, subject: S) -> (moved: bool)
        requires
            old(self).wf(),
        ensures
            final(self).wf(),
            moved == old(self)@.joining(id),
            final(self)@ == old(self)@.settled(id, Mode::Stop, Some(subject)),
    {
        if !self.is_joining(id) {
            return false;
        }
        table::remove(&mut self.launched, id);
        table::insert(&mut self.stopped, id, subject);
        proof {
            assert(self@ =~= old(self)@.settled(id, Mode::Stop, Some(subject)));
            old(self)@.lemma_settled(id, Mode::Stop, Some(subject));
        }
        true
    }

    /// Files the launched subject `id`, whose handle is out, under killed,
    /// with the value that its task gave back or without one. Returns
    /// whether it did; if nobody was waiting for `id`, nothing changes.
    pub fn move_to_killed(&mut self, id: Id, subject: Option<S>) -> (moved: bool)
        requires
            old(self).wf(),
        ensures
            final(self).wf(),
            moved == old(self)@.joining(id),
            final(self)@ == old(self)@.settled(id, Mode::Kill, subject),
            subject is None ==> final(self)@ == old(self)@.settled(id, Mode::Stop, subject),
    {
        if !self.is_joining(id) {
            return false;
        }
        table::remove(&mut self.launched, id);
        table::insert(&mut self.killed, id, subject);
        proof {
            assert(self@ =~= old(self)@.settled(id, Mode::Kill, subject));
            old(self)@.lemma_settled(id, Mode::Kill, subject);
        }
        true
    }

    /// Takes the subjects from position `start` on out of the registry, in
    /// order to reset them, and returns them in deployment order. This is
    /// done only if every one of them is dormant with its value at hand;
    /// otherwise nothing changes.
    pub fn drain(&mut self, start: usize) -> (jobs: Option<Vec<Job<S>>>)
        requires
            old(self).wf(),
            start <= old(self)@.order.len(),
        ensures
            final(self).wf(),
            jobs is Some <==> old(self)@.restorable_from(start as int),
            jobs matches Some(taken) ==> taken@ == old(self)@.jobs(start as int) && final(self)@ == old(
                self,
            )@.drained(start as int),
            jobs is None ==> final(self)@ == old(self)@,
    {
        let ghost before = self@;
        let mut i: usize = start;
        while i < self.order.len()
            invariant
                start <= i <= self.order.len(),
                self.wf(),
                *self == *old(self),
                forall|j: int| start <= j < i ==> self@.restorable(#[trigger] self@.order[j]),
            decreases self.order.len() - i,
        {
            if self.dormant(self.order[i]).is_none() {
                return None;
            }
            i += 1;
        }
        let mut jobs: Vec<Job<S>> = Vec::new();
        let mut i: usize = start;
        proof {
            assert(before.order.subrange(start as int, start as int) =~= Seq::<Id>::empty());
            assert(before.ids_between(start as int, start as int) =~= Set::<Id>::empty());
            assert(self.stopped@ =~= before.stopped.remove_keys(Set::<Id>::empty()));
            assert(self.killed@ =~= before.killed.remove_keys(Set::<Id>::empty()));
            assert(jobs@ =~= before.jobs_between(start as int, start as int));
        }
        while i < self.order.len()
            invariant
                start <= i <= self.order.len(),
                before.wf(),
                before.restorable_from(start as int),
                self.order@ == before.order,
                self.launched@ == before.launched,
                self.stopped@ == before.stopped.remove_keys(before.ids_between(start as int, i as int)),
                self.killed@ == before.killed.remove_keys(before.ids_between(start as int, i as int)),
                jobs@ == before.jobs_between(start as int, i as int),
            decreases self.order.len() - i,
        {
            let id = self.order[i];
            proof {
                // The subject at position `i` has not been taken yet.
                assert(before.restorable(before.order[i as int]));
                let done = before.order.subrange(start as int, i as int);
                let wider = before.order.subrange(start as int, i + 1);
                assert(wider =~= done.push(id));
                done.lemma_push_to_set_commute(id);
                assert(!before.ids_between(start as int, i as int).contains(id)) by {
                    if done.contains(id) {
                        let j = choose|j: int| 0 <= j < done.len() && done[j] == id;
                        assert(before.order[start + j] == id);
                    }
                }
                assert(before.jobs_between(start as int, i + 1) =~= before.jobs_between(
                    start as int,
                    i as int,
                ).push(before.job_of(id)));
            }
            match self.take_from_any_dormant(id) {
                Some(job) => {
                    jobs.push(job);
                },
                None => {},
            }
            proof {
                assert(self.stopped@ =~= before.stopped.remove_keys(
                    before.ids_between(start as int, i + 1),
                ));
                assert(self.killed@ =~= before.killed.remove_keys(
                    before.ids_between(start as int, i + 1),
                ));
            }
            i += 1;
        }
        self.order.truncate(start);
        proof {
            assert(self@ =~= before.drained(start as int));
            before.lemma_drained(start as int);
        }
        Some(jobs)
    }

    /// Brings the launched subject `old_id`, whose handle is out, back under
    /// the identifier `new_id`, running with `handle`, at the ordinal it
    /// had. Returns whether it did: nothing changes unless somebody was
    /// waiting for `old_id` and `new_id` is either `old_id` or not filed.
    pub fn replace(&mut self, old_id: Id, new_id: Id, handle: H) -> (replaced: bool)
        requires
            old(self).wf(),
        ensures
            final(self).wf(),
            replaced == old(self)@.replaceable(old_id, new_id),
            replaced ==> final(self)@ == old(self)@.replaced(old_id, new_id, handle),
            !replaced ==> final(self)@ == old(self)@,
    {
        if new_id != old_id && self.status(new_id).is_some() {
            return false;
        }
        match self.ordinal_of(old_id) {
            Some(ordinal) => {
                if !self.is_joining(old_id) {
                    return false;
                }
                table::remove(&mut self.launched, old_id);
                table::insert(&mut self.launched, new_id, (ordinal, Some(handle)));
                self.order.set(ordinal, new_id);
                proof {
                    assert(self@ =~= old(self)@.replaced(old_id, new_id, handle));
                    old(self)@.lemma_replaced(old_id, new_id, handle);
                }
                true
            },
            None => false,
        }
    }

    /// Takes the dormant subject `id` out of its heading: it is looked for
    /// under stopped first and then under killed. The order is left as it
    /// is, for the caller to mend.
    fn take_from_any_dormant(&mut self, id: Id) -> (job: Option<Job<S>>)
        ensures
            final(self).order == old(self).order,
            final(self).launched == old(self).launched,
            final(self).stopped@ == old(self).stopped@.remove(id),
            final(self).killed@ == (if old(self).stopped@.contains_key(id) {
                old(self).killed@
            } else {
                old(self).killed@.remove(id)
            }),
            job == (if old(self)@.restorable(id) {
                Some(old(self)@.job_of(id))
            } else {
                None
            }),
    {
        match table::remove(&mut self.stopped, id) {
            Some(subject) => Some(Job { id, subject, killed: false }),
            None => match table::remove(&mut self.killed, id) {
                Some(Some(subject)) => Some(Job { id, subject, killed: true }),
                _ => None,
            },
        }
    }

    /// Whether `id` is launched and its handle is out.
    fn is_joining(&self, id: Id) -> (joining: bool)
        ensures
            joining == self@.joining(id),
    {
        match table::get(&self.launched, id) {
            Some(entry) => entry.1.is_none(),
            None => false,
        }
    }
}

} // verus!
