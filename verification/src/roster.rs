//! What a registry holds, as mathematics.
//!
//! A roster is the order of the subjects and the three headings they are
//! filed under. The operations of a registry are stated here as functions
//! from roster to roster, and each is shown to keep the invariant.
use crate::message::{Id, Mode};
use crate::registry::{Job, Settled};
use vstd::prelude::*;

verus! {

/// What a registry holds. `S` is the type of a dormant subject and `H` the
/// type of the handle of a running one.
#[verifier::ext_equal]
pub struct Roster<S, H> {
    /// The identifiers of all subjects, in deployment order.
    pub order: Seq<Id>,
    /// The running subjects: their ordinal, and their handle unless it is
    /// out for a join.
    pub launched: Map<Id, (usize, Option<H>)>,
    /// The subjects that stopped gracefully.
    pub stopped: Map<Id, S>,
    /// The subjects that were killed, without a value where the task ended
    /// without giving one back.
    pub killed: Map<Id, Option<S>>,
}

impl<S, H> Roster<S, H> {
    /// The roster without any subject.
    pub open spec fn empty() -> Self {
        Roster { order: Seq::empty(), launched: Map::empty(), stopped: Map::empty(), killed: Map::empty() }
    }

    /// Whether `id` is filed under one of the three headings.
    pub open spec fn knows(self, id: Id) -> bool {
        self.launched.contains_key(id) || self.stopped.contains_key(id) || self.killed.contains_key(id)
    }

    /// Whether `id` is launched and its handle is in the registry.
    pub open spec fn running(self, id: Id) -> bool {
        self.launched.contains_key(id) && self.launched[id].1 is Some
    }

    /// Whether `id` is launched and its handle is out for a join.
    pub open spec fn joining(self, id: Id) -> bool {
        self.launched.contains_key(id) && self.launched[id].1 is None
    }

    /// Whether `id` is dormant and its value is at hand, so that it can be
    /// reset.
    pub open spec fn restorable(self, id: Id) -> bool {
        self.stopped.contains_key(id) || (self.killed.contains_key(id) && self.killed[id] is Some)
    }

    /// The invariant of a registry: no identifier occurs twice in the order,
    /// every identifier of the order is filed under exactly one heading,
    /// nothing else is filed, and the ordinal of a launched subject is its
    /// position in the order. The order is no longer than a vector can be.
    pub open spec fn wf(self) -> bool {
        &&& self.order.len() <= usize::MAX
        &&& self.order.no_duplicates()
        &&& forall|i: int| 0 <= i < self.order.len() ==> self.knows(#[trigger] self.order[i])
        &&& forall|id: Id| #[trigger]
            self.launched.contains_key(id) ==> {
                &&& self.launched[id].0 < self.order.len()
                &&& self.order[self.launched[id].0 as int] == id
                &&& !self.stopped.contains_key(id)
                &&& !self.killed.contains_key(id)
            }
        &&& forall|id: Id| #[trigger]
            self.stopped.contains_key(id) ==> self.order.contains(id) && !self.killed.contains_key(id)
        &&& forall|id: Id| #[trigger] self.killed.contains_key(id) ==> self.order.contains(id)
    }

    /// The roster after `id` was appended to the order and launched with
    /// `handle`.
    pub open spec fn enlisted(self, id: Id, handle: H) -> Self {
        Roster {
            order: self.order.push(id),
            launched: self.launched.insert(id, (self.order.len() as usize, Some(handle))),
            ..self
        }
    }

    /// The roster after the handle of `id` was taken out, if `id` is
    /// running.
    pub open spec fn taken(self, id: Id) -> Self {
        if self.running(id) {
            Roster { launched: self.launched.insert(id, (self.launched[id].0, None)), ..self }
        } else {
            self
        }
    }

    /// The roster after the handles of the running subjects with an ordinal
    /// from `lo` up to, not including, `hi` were taken out.
    pub open spec fn checked_out(self, lo: int, hi: int) -> Self {
        Roster {
            launched: Map::new(
                |id: Id| self.launched.contains_key(id),
                |id: Id|
                    if lo <= self.launched[id].0 < hi {
                        (self.launched[id].0, None)
                    } else {
                        self.launched[id]
                    },
            ),
            ..self
        }
    }

    /// The identifier `id` with the handle of its task, if that subject is
    /// running.
    pub open spec fn join_at(self, id: Id) -> Option<(Id, H)> {
        if self.running(id) {
            Some((id, self.launched[id].1->0))
        } else {
            None
        }
    }

    /// The running subjects among positions `lo` up to, not including, `hi`,
    /// in deployment order, each with its handle.
    pub open spec fn joins(self, lo: int, hi: int) -> Seq<(Id, H)> {
        self.order.subrange(lo, hi).filter_map(|id: Id| self.join_at(id))
    }

    /// Under which heading the outcome of a join files a subject.
    pub open spec fn verdict(self, id: Id, mode: Mode, present: bool) -> Settled {
        if !self.joining(id) {
            Settled::Ignored
        } else if !present {
            Settled::Lost
        } else if mode == Mode::Stop {
            Settled::Stopped
        } else {
            Settled::Killed
        }
    }

    /// The roster after the task of `id` ended with `outcome`, the subject
    /// having been brought down in `mode`.
    pub open spec fn settled(self, id: Id, mode: Mode, outcome: Option<S>) -> Self {
        if !self.joining(id) {
            self
        } else if outcome is Some && mode == Mode::Stop {
            Roster {
                launched: self.launched.remove(id),
                stopped: self.stopped.insert(id, outcome->0),
                ..self
            }
        } else {
            Roster { launched: self.launched.remove(id), killed: self.killed.insert(id, outcome), ..self }
        }
    }

    /// The roster after the tasks of `reports` ended one after the other,
    /// each with its outcome, the subjects having been brought down in
    /// `mode`.
    pub open spec fn settled_each(self, mode: Mode, reports: Seq<(Id, Option<S>)>) -> Self
        decreases reports.len(),
    {
        if reports.len() == 0 {
            self
        } else {
            self.settled_each(mode, reports.drop_last()).settled(
                reports.last().0,
                mode,
                reports.last().1,
            )
        }
    }

    /// Whether every subject from position `start` on can be reset.
    pub open spec fn restorable_from(self, start: int) -> bool {
        forall|i: int| start <= i < self.order.len() ==> self.restorable(#[trigger] self.order[i])
    }

    /// The job that resets the dormant subject `id`.
    pub open spec fn job_of(self, id: Id) -> Job<S> {
        if self.stopped.contains_key(id) {
            Job { id, subject: self.stopped[id], killed: false }
        } else {
            Job { id, subject: self.killed[id]->0, killed: true }
        }
    }

    /// The jobs that reset the subjects at positions `lo` up to, not
    /// including, `hi`, in deployment order.
    pub open spec fn jobs_between(self, lo: int, hi: int) -> Seq<Job<S>> {
        self.order.subrange(lo, hi).map_values(|id: Id| self.job_of(id))
    }

    /// The jobs that reset the subjects from position `start` on, in
    /// deployment order.
    pub open spec fn jobs(self, start: int) -> Seq<Job<S>> {
        self.jobs_between(start, self.order.len() as int)
    }

    /// The identifiers at positions `lo` up to, not including, `hi`.
    pub open spec fn ids_between(self, lo: int, hi: int) -> Set<Id> {
        self.order.subrange(lo, hi).to_set()
    }

    /// The roster after the subjects from position `start` on were taken out
    /// of it.
    pub open spec fn drained(self, start: int) -> Self {
        let gone = self.ids_between(start, self.order.len() as int);
        Roster {
            order: self.order.subrange(0, start),
            launched: self.launched,
            stopped: self.stopped.remove_keys(gone),
            killed: self.killed.remove_keys(gone),
        }
    }

    /// Whether the subject `old`, whose handle is out, can come back under
    /// the identifier `new`.
    pub open spec fn replaceable(self, old: Id, new: Id) -> bool {
        self.joining(old) && (new == old || !self.knows(new))
    }

    /// The roster after the subject `old` came back under the identifier
    /// `new`, running with `handle`, at the ordinal it had.
    pub open spec fn replaced(self, old: Id, new: Id, handle: H) -> Self {
        let ordinal = self.launched[old].0;
        Roster {
            order: self.order.update(ordinal as int, new),
            launched: self.launched.remove(old).insert(new, (ordinal, Some(handle))),
            ..self
        }
    }

    /// The identifiers under which the subjects of `fresh` come back.
    pub open spec fn ids_of(fresh: Seq<(Id, H)>) -> Seq<Id> {
        fresh.map_values(|back: (Id, H)| back.0)
    }

    /// Whether the subjects of `fresh` can be launched one after the other:
    /// no identifier of theirs is filed, none occurs twice, and the order
    /// has room for them.
    pub open spec fn admits(self, fresh: Seq<(Id, H)>) -> bool {
        &&& self.order.len() + fresh.len() <= usize::MAX
        &&& forall|k: int| 0 <= k < fresh.len() ==> !self.knows((#[trigger] fresh[k]).0)
        &&& forall|k: int, l: int| 0 <= k < l < fresh.len() ==> (#[trigger] fresh[k]).0 != (#[trigger] fresh[l]).0
    }

    /// Whether `fresh` can be what comes back from a restart of the subjects
    /// from position `start` on: one subject for each that was taken out,
    /// no two under the same identifier, and none under the identifier of
    /// a subject before `start`.
    pub open spec fn brings_back(self, start: int, fresh: Seq<(Id, H)>) -> bool {
        &&& fresh.len() == self.order.len() - start
        &&& forall|k: int|
            0 <= k < fresh.len() ==> !self.order.subrange(0, start).contains((#[trigger] fresh[k]).0)
        &&& forall|k: int, l: int| 0 <= k < l < fresh.len() ==> (#[trigger] fresh[k]).0 != (#[trigger] fresh[l]).0
    }

    /// The roster after an attempt to launch `id` with `handle`: the subject
    /// is appended, unless its identifier is filed already or the order is
    /// full.
    pub open spec fn enrolled(self, id: Id, handle: H) -> Self {
        if !self.knows(id) && self.order.len() < usize::MAX {
            self.enlisted(id, handle)
        } else {
            self
        }
    }

    /// The roster after the subjects of `fresh` were launched one after the
    /// other, each under its identifier and with its handle, as far as they
    /// were not refused.
    pub open spec fn relaunched(self, fresh: Seq<(Id, H)>) -> Self
        decreases fresh.len(),
    {
        if fresh.len() == 0 {
            self
        } else {
            self.relaunched(fresh.drop_last()).enrolled(fresh.last().0, fresh.last().1)
        }
    }

    /// Whether none of the subjects of `fresh` is refused when they are
    /// launched one after the other.
    pub open spec fn accepts(self, fresh: Seq<(Id, H)>) -> bool
        decreases fresh.len(),
    {
        fresh.len() == 0 || {
            &&& self.accepts(fresh.drop_last())
            &&& !self.relaunched(fresh.drop_last()).knows(fresh.last().0)
            &&& self.relaunched(fresh.drop_last()).order.len() < usize::MAX
        }
    }

    /// The roster after the subjects from position `start` on were
    /// restarted and came back as `fresh`, in deployment order.
    pub open spec fn rebuilt(self, start: int, fresh: Seq<(Id, H)>) -> Self {
        self.drained(start).relaunched(fresh)
    }

    /// Launching a subject under an identifier that is not filed keeps the
    /// invariant.
    pub proof fn lemma_enlisted(self, id: Id, handle: H)
        requires
            self.wf(),
            !self.knows(id),
            self.order.len() < usize::MAX,
        ensures
            self.enlisted(id, handle).wf(),
    {
        let after = self.enlisted(id, handle);
        self.lemma_known_iff_ordered(id);
        assert(after.order.no_duplicates());
        assert forall|i: int| 0 <= i < after.order.len() implies after.knows(#[trigger] after.order[i]) by {
            if i < self.order.len() {
                assert(self.knows(self.order[i]));
            }
        }
        assert forall|k: Id| #[trigger] after.stopped.contains_key(k) implies after.order.contains(k) by {
            let j = choose|j: int| 0 <= j < self.order.len() && self.order[j] == k;
            assert(after.order[j] == k);
        }
        assert forall|k: Id| #[trigger] after.killed.contains_key(k) implies after.order.contains(k) by {
            let j = choose|j: int| 0 <= j < self.order.len() && self.order[j] == k;
            assert(after.order[j] == k);
        }
    }

    /// Taking handles out keeps the invariant.
    pub proof fn lemma_checked_out(self, lo: int, hi: int)
        requires
            self.wf(),
        ensures
            self.checked_out(lo, hi).wf(),
    {
        let after = self.checked_out(lo, hi);
        assert forall|i: int| 0 <= i < after.order.len() implies after.knows(#[trigger] after.order[i]) by {
            assert(self.knows(self.order[i]));
        }
    }

    /// Taking one handle out keeps the invariant.
    pub proof fn lemma_taken(self, id: Id)
        requires
            self.wf(),
        ensures
            self.taken(id).wf(),
    {
        let after = self.taken(id);
        assert forall|i: int| 0 <= i < after.order.len() implies after.knows(#[trigger] after.order[i]) by {
            assert(self.knows(self.order[i]));
        }
    }

    /// Filing a subject whose task has ended keeps the invariant.
    pub proof fn lemma_settled(self, id: Id, mode: Mode, outcome: Option<S>)
        requires
            self.wf(),
        ensures
            self.settled(id, mode, outcome).wf(),
    {
        let after = self.settled(id, mode, outcome);
        if self.joining(id) {
            assert(self.order[self.launched[id].0 as int] == id);
            assert forall|i: int| 0 <= i < after.order.len() implies after.knows(
                #[trigger] after.order[i],
            ) by {
                assert(self.knows(self.order[i]));
            }
        }
    }

    /// Where the handle of every launched subject is out, reporting the
    /// end of tasks keeps the invariant and leaves launched exactly the
    /// subjects of which nothing was reported, their handles still out. A
    /// subject that was reported is dormant.
    pub proof fn lemma_settled_each(self, mode: Mode, reports: Seq<(Id, Option<S>)>)
        requires
            self.wf(),
            forall|id: Id| #[trigger] self.launched.contains_key(id) ==> self.joining(id),
        ensures
            self.settled_each(mode, reports).wf(),
            self.settled_each(mode, reports).order == self.order,
            forall|id: Id| #[trigger]
                self.settled_each(mode, reports).launched.contains_key(id) <==> self.launched.contains_key(
                    id,
                ) && !(exists|k: int| 0 <= k < reports.len() && (#[trigger] reports[k]).0 == id),
            forall|id: Id| #[trigger]
                self.settled_each(mode, reports).launched.contains_key(id) ==> self.settled_each(
                    mode,
                    reports,
                ).joining(id),
        decreases reports.len(),
    {
        if reports.len() > 0 {
            let rest = reports.drop_last();
            let last = reports.last();
            let mid = self.settled_each(mode, rest);
            let after = self.settled_each(mode, reports);
            self.lemma_settled_each(mode, rest);
            mid.lemma_settled(last.0, mode, last.1);
            assert forall|id: Id| #[trigger]
                after.launched.contains_key(id) <==> self.launched.contains_key(id) && !(exists|k: int|
                    0 <= k < reports.len() && (#[trigger] reports[k]).0 == id) by {
                if after.launched.contains_key(id) {
                    assert(mid.launched.contains_key(id));
                    assert(id != last.0);
                    if exists|k: int| 0 <= k < reports.len() && (#[trigger] reports[k]).0 == id {
                        let k = choose|k: int| 0 <= k < reports.len() && (#[trigger] reports[k]).0 == id;
                        assert(k < rest.len());
                        assert(rest[k].0 == id);
                    }
                } else if self.launched.contains_key(id) {
                    if mid.launched.contains_key(id) {
                        assert(mid.joining(id));
                        assert(id == last.0);
                        assert(reports[reports.len() - 1].0 == id);
                    } else {
                        let k = choose|k: int| 0 <= k < rest.len() && (#[trigger] rest[k]).0 == id;
                        assert(reports[k].0 == id);
                    }
                }
            }
        }
    }

    /// Where the handle of every launched subject is out and each report is
    /// that of another launched subject whose task gave its value back,
    /// reporting the end of these tasks after a stop files each of them
    /// under stopped with that value, and leaves every dormant subject as it
    /// was.
    pub proof fn lemma_stopped_each(self, reports: Seq<(Id, Option<S>)>)
        requires
            self.wf(),
            forall|id: Id| #[trigger] self.launched.contains_key(id) ==> self.joining(id),
            forall|k: int|
                0 <= k < reports.len() ==> self.launched.contains_key((#[trigger] reports[k]).0)
                    && reports[k].1 is Some,
            forall|k: int, l: int|
                0 <= k < l < reports.len() ==> (#[trigger] reports[k]).0 != (#[trigger] reports[l]).0,
        ensures
            self.settled_each(Mode::Stop, reports).killed == self.killed,
            forall|id: Id| #[trigger]
                self.stopped.contains_key(id) ==> self.settled_each(
                    Mode::Stop,
                    reports,
                ).stopped.contains_key(id) && self.settled_each(Mode::Stop, reports).stopped[id]
                    == self.stopped[id],
            forall|k: int|
                0 <= k < reports.len() ==> self.settled_each(Mode::Stop, reports).stopped.contains_key(
                    (#[trigger] reports[k]).0,
                ) && self.settled_each(Mode::Stop, reports).stopped[reports[k].0] == reports[k].1->0,
        decreases reports.len(),
    {
        if reports.len() > 0 {
            let rest = reports.drop_last();
            let last = reports.last();
            let mid = self.settled_each(Mode::Stop, rest);
            let after = self.settled_each(Mode::Stop, reports);
            assert forall|k: int| 0 <= k < rest.len() implies self.launched.contains_key(
                (#[trigger] rest[k]).0,
            ) && rest[k].1 is Some by {
                assert(rest[k] == reports[k]);
            }
            assert forall|k: int, l: int| 0 <= k < l < rest.len() implies (#[trigger] rest[k]).0 != (
            #[trigger] rest[l]).0 by {
                assert(rest[k] == reports[k]);
                assert(rest[l] == reports[l]);
            }
            self.lemma_stopped_each(rest);
            self.lemma_settled_each(Mode::Stop, rest);
            assert(last == reports[reports.len() - 1]);
            assert(mid.joining(last.0)) by {
                assert(self.launched.contains_key(reports[reports.len() - 1].0));
                if exists|k: int| 0 <= k < rest.len() && (#[trigger] rest[k]).0 == last.0 {
                    let k = choose|k: int| 0 <= k < rest.len() && (#[trigger] rest[k]).0 == last.0;
                    assert(rest[k] == reports[k]);
                    assert(reports[k].0 != reports[reports.len() - 1].0);
                }
                assert(mid.launched.contains_key(last.0));
            }
            assert(reports[reports.len() - 1].1 is Some);
            assert forall|id: Id| #[trigger] self.stopped.contains_key(id) implies after.stopped.contains_key(
                id,
            ) && after.stopped[id] == self.stopped[id] by {
                assert(mid.stopped.contains_key(id));
                assert(id != last.0);
            }
            assert forall|k: int| 0 <= k < reports.len() implies after.stopped.contains_key(
                (#[trigger] reports[k]).0,
            ) && after.stopped[reports[k].0] == reports[k].1->0 by {
                if k < rest.len() {
                    assert(rest[k] == reports[k]);
                    assert(mid.stopped.contains_key(rest[k].0));
                    assert(reports[k].0 != reports[reports.len() - 1].0);
                }
            }
        }
    }

    /// Reporting the end of the tasks of launched subjects whose handles are
    /// out, each of them once, keeps the invariant and the order, takes
    /// exactly these subjects out of launched, leaves every other subject as
    /// it was, and files each subject whose task gave its value back so that
    /// it can be reset.
    pub proof fn lemma_reported_each(self, mode: Mode, reports: Seq<(Id, Option<S>)>)
        requires
            self.wf(),
            forall|k: int| 0 <= k < reports.len() ==> self.joining((#[trigger] reports[k]).0),
            forall|k: int, l: int|
                0 <= k < l < reports.len() ==> (#[trigger] reports[k]).0 != (#[trigger] reports[l]).0,
        ensures
            self.settled_each(mode, reports).wf(),
            self.settled_each(mode, reports).order == self.order,
            forall|id: Id| #[trigger]
                self.settled_each(mode, reports).launched.contains_key(id) <==> self.launched.contains_key(
                    id,
                ) && !(exists|k: int| 0 <= k < reports.len() && (#[trigger] reports[k]).0 == id),
            forall|id: Id| #[trigger]
                self.settled_each(mode, reports).launched.contains_key(id) ==> self.settled_each(
                    mode,
                    reports,
                ).launched[id] == self.launched[id],
            forall|id: Id| #[trigger]
                self.stopped.contains_key(id) ==> self.settled_each(mode, reports).stopped.contains_key(
                    id,
                ) && self.settled_each(mode, reports).stopped[id] == self.stopped[id],
            forall|id: Id| #[trigger]
                self.killed.contains_key(id) ==> self.settled_each(mode, reports).killed.contains_key(id)
                    && self.settled_each(mode, reports).killed[id] == self.killed[id],
            forall|k: int|
                0 <= k < reports.len() && (#[trigger] reports[k]).1 is Some ==> self.settled_each(
                    mode,
                    reports,
                ).restorable(reports[k].0),
        decreases reports.len(),
    {
        if reports.len() > 0 {
            let rest = reports.drop_last();
            let last = reports.last();
            let mid = self.settled_each(mode, rest);
            let after = self.settled_each(mode, reports);
            assert forall|k: int| 0 <= k < rest.len() implies self.joining((#[trigger] rest[k]).0) by {
                assert(rest[k] == reports[k]);
            }
            assert forall|k: int, l: int| 0 <= k < l < rest.len() implies (#[trigger] rest[k]).0 != (
            #[trigger] rest[l]).0 by {
                assert(rest[k] == reports[k]);
                assert(rest[l] == reports[l]);
            }
            self.lemma_reported_each(mode, rest);
            assert(last == reports[reports.len() - 1]);
            assert(self.joining(reports[reports.len() - 1].0));
            assert(mid.joining(last.0)) by {
                if exists|k: int| 0 <= k < rest.len() && (#[trigger] rest[k]).0 == last.0 {
                    let k = choose|k: int| 0 <= k < rest.len() && (#[trigger] rest[k]).0 == last.0;
                    assert(rest[k] == reports[k]);
                    assert(reports[k].0 != reports[reports.len() - 1].0);
                }
                assert(mid.launched.contains_key(last.0));
            }
            mid.lemma_settled(last.0, mode, last.1);
            assert forall|id: Id| #[trigger]
                after.launched.contains_key(id) <==> self.launched.contains_key(id) && !(exists|k: int|
                    0 <= k < reports.len() && (#[trigger] reports[k]).0 == id) by {
                if after.launched.contains_key(id) {
                    assert(mid.launched.contains_key(id));
                    assert(id != last.0);
                    if exists|k: int| 0 <= k < reports.len() && (#[trigger] reports[k]).0 == id {
                        let k = choose|k: int| 0 <= k < reports.len() && (#[trigger] reports[k]).0 == id;
                        assert(k < rest.len());
                        assert(rest[k].0 == id);
                    }
                } else if self.launched.contains_key(id) {
                    if mid.launched.contains_key(id) {
                        assert(id == last.0);
                        assert(reports[reports.len() - 1].0 == id);
                    } else {
                        let k = choose|k: int| 0 <= k < rest.len() && (#[trigger] rest[k]).0 == id;
                        assert(reports[k].0 == id);
                    }
                }
            }
            assert forall|id: Id| #[trigger] self.stopped.contains_key(id) implies after.stopped.contains_key(
                id,
            ) && after.stopped[id] == self.stopped[id] by {
                assert(mid.stopped.contains_key(id));
                assert(id != last.0);
            }
            assert forall|id: Id| #[trigger] self.killed.contains_key(id) implies after.killed.contains_key(
                id,
            ) && after.killed[id] == self.killed[id] by {
                assert(mid.killed.contains_key(id));
                assert(id != last.0);
            }
            assert forall|k: int| 0 <= k < reports.len() && (#[trigger] reports[k]).1 is Some implies after.restorable(
                reports[k].0,
            ) by {
                if k < rest.len() {
                    assert(rest[k] == reports[k]);
                    assert(mid.restorable(rest[k].0));
                    assert(reports[k].0 != reports[reports.len() - 1].0);
                }
            }
        }
    }

    /// The joins of a range are running subjects of that range, each of
    /// them once.
    pub proof fn lemma_joins(self, lo: int, hi: int)
        requires
            self.wf(),
            0 <= lo <= hi <= self.order.len(),
        ensures
            forall|k: int|
                0 <= k < self.joins(lo, hi).len() ==> self.running((#[trigger] self.joins(lo, hi)[k]).0)
                    && exists|at: int| lo <= at < hi && self.order[at] == self.joins(lo, hi)[k].0,
            forall|k: int, l: int|
                0 <= k < l < self.joins(lo, hi).len() ==> (#[trigger] self.joins(lo, hi)[k]).0 != (
                #[trigger] self.joins(lo, hi)[l]).0,
        decreases hi - lo,
    {
        if lo < hi {
            let range = self.order.subrange(lo, hi);
            assert(range.drop_last() =~= self.order.subrange(lo, hi - 1));
            assert(range.last() == self.order[hi - 1]);
            let rest = self.joins(lo, hi - 1);
            let all = self.joins(lo, hi);
            let id = self.order[hi - 1];
            self.lemma_joins(lo, hi - 1);
            if self.running(id) {
                assert(all =~= rest + seq![(id, self.launched[id].1->0)]);
            } else {
                assert(all =~= rest);
            }
            assert forall|k: int| 0 <= k < all.len() implies self.running((#[trigger] all[k]).0)
                && exists|at: int| lo <= at < hi && self.order[at] == all[k].0 by {
                if k < rest.len() {
                    assert(all[k] == rest[k]);
                    let at = choose|at: int| lo <= at < hi - 1 && self.order[at] == rest[k].0;
                    assert(lo <= at < hi && self.order[at] == all[k].0);
                } else {
                    assert(self.order[hi - 1] == all[k].0);
                }
            }
            assert forall|k: int, l: int| 0 <= k < l < all.len() implies (#[trigger] all[k]).0 != (
            #[trigger] all[l]).0 by {
                assert(all[k] == rest[k]);
                if l < rest.len() {
                    assert(all[l] == rest[l]);
                } else {
                    let at = choose|at: int| lo <= at < hi - 1 && self.order[at] == rest[k].0;
                    assert(self.order[at] != self.order[hi - 1]);
                }
            }
        } else {
            assert(self.order.subrange(lo, hi) =~= Seq::<Id>::empty());
        }
    }

    /// Taking the subjects from `start` on out keeps the invariant, if
    /// every one of them can be reset.
    pub proof fn lemma_drained(self, start: int)
        requires
            self.wf(),
            0 <= start <= self.order.len(),
            self.restorable_from(start),
        ensures
            self.drained(start).wf(),
    {
        let after = self.drained(start);
        let suffix = self.order.subrange(start, self.order.len() as int);
        let gone = self.ids_between(start, self.order.len() as int);
        assert forall|j: int| 0 <= j < start implies !gone.contains(#[trigger] self.order[j]) by {
            if suffix.contains(self.order[j]) {
                let m = choose|m: int| 0 <= m < suffix.len() && suffix[m] == self.order[j];
                assert(self.order[start + m] == self.order[j]);
            }
        }
        assert forall|j: int| 0 <= j < after.order.len() implies after.knows(#[trigger] after.order[j]) by {
            assert(after.order[j] == self.order[j]);
            assert(self.knows(self.order[j]));
            assert(!gone.contains(self.order[j]));
        }
        assert(after.order.no_duplicates()) by {
            assert forall|a: int, b: int|
                0 <= a < after.order.len() && 0 <= b < after.order.len() && a != b implies after.order[a]
                != after.order[b] by {
                assert(self.order[a] != self.order[b]);
            }
        }
        assert forall|k: Id| #[trigger] after.launched.contains_key(k) implies after.launched[k].0
            < after.order.len() && after.order[after.launched[k].0 as int] == k by {
            let at = self.launched[k].0 as int;
            assert(self.order[at] == k);
            if at >= start {
                assert(self.restorable(self.order[at]));
            }
        }
        assert forall|k: Id| #[trigger] after.stopped.contains_key(k) implies after.order.contains(k) by {
            let j = choose|j: int| 0 <= j < self.order.len() && self.order[j] == k;
            if j >= start {
                assert(suffix[j - start] == k);
            }
            assert(after.order[j] == k);
        }
        assert forall|k: Id| #[trigger] after.killed.contains_key(k) implies after.order.contains(k) by {
            let j = choose|j: int| 0 <= j < self.order.len() && self.order[j] == k;
            if j >= start {
                assert(suffix[j - start] == k);
            }
            assert(after.order[j] == k);
        }
    }

    /// Bringing a subject back at its ordinal keeps the invariant.
    pub proof fn lemma_replaced(self, old: Id, new: Id, handle: H)
        requires
            self.wf(),
            self.replaceable(old, new),
        ensures
            self.replaced(old, new, handle).wf(),
    {
        let after = self.replaced(old, new, handle);
        let ordinal = self.launched[old].0;
        self.lemma_known_iff_ordered(new);
        assert(self.order[ordinal as int] == old);
        assert forall|j: int| 0 <= j < after.order.len() implies after.knows(#[trigger] after.order[j]) by {
            if j != ordinal {
                assert(self.knows(self.order[j]));
                assert(self.order[j] != old);
            }
        }
        assert forall|k: Id| #[trigger] after.launched.contains_key(k) implies after.order[after.launched[k].0 as int]
            == k by {
            if k != new {
                assert(self.order[self.launched[k].0 as int] == k);
            }
        }
        assert forall|k: Id| #[trigger] after.stopped.contains_key(k) implies after.order.contains(k) by {
            let j = choose|j: int| 0 <= j < self.order.len() && self.order[j] == k;
            assert(after.order[j] == k);
        }
        assert forall|k: Id| #[trigger] after.killed.contains_key(k) implies after.order.contains(k) by {
            let j = choose|j: int| 0 <= j < self.order.len() && self.order[j] == k;
            assert(after.order[j] == k);
        }
    }

    /// An attempt to launch a subject keeps the invariant.
    pub proof fn lemma_enrolled(self, id: Id, handle: H)
        requires
            self.wf(),
        ensures
            self.enrolled(id, handle).wf(),
    {
        if !self.knows(id) && self.order.len() < usize::MAX {
            self.lemma_enlisted(id, handle);
        }
    }

    /// Launching subjects one after the other keeps the invariant, appends
    /// their identifiers to the order in the same sequence, and leaves
    /// every subject that was filed before as it was.
    pub proof fn lemma_relaunched(self, fresh: Seq<(Id, H)>)
        requires
            self.wf(),
            self.admits(fresh),
        ensures
            self.accepts(fresh),
            self.relaunched(fresh).wf(),
            self.relaunched(fresh).order == self.order + Self::ids_of(fresh),
            self.relaunched(fresh).stopped == self.stopped,
            self.relaunched(fresh).killed == self.killed,
            forall|id: Id| #[trigger]
                self.launched.contains_key(id) ==> self.relaunched(fresh).launched.contains_key(id)
                    && self.relaunched(fresh).launched[id] == self.launched[id],
            forall|k: int|
                0 <= k < fresh.len() ==> self.relaunched(fresh).launched.contains_key(
                    (#[trigger] fresh[k]).0,
                ) && self.relaunched(fresh).launched[fresh[k].0] == (
                    (self.order.len() + k) as usize,
                    Some(fresh[k].1),
                ),
        decreases fresh.len(),
    {
        if fresh.len() == 0 {
            assert(self.order + Self::ids_of(fresh) =~= self.order);
        } else {
            let rest = fresh.drop_last();
            let last = fresh.last();
            let mid = self.relaunched(rest);
            assert forall|k: int| 0 <= k < rest.len() implies !self.knows((#[trigger] rest[k]).0) by {
                assert(rest[k] == fresh[k]);
            }
            assert forall|k: int, l: int| 0 <= k < l < rest.len() implies (#[trigger] rest[k]).0 != (
            #[trigger] rest[l]).0 by {
                assert(rest[k] == fresh[k]);
                assert(rest[l] == fresh[l]);
            }
            self.lemma_relaunched(rest);
            assert(!mid.knows(last.0)) by {
                mid.lemma_known_iff_ordered(last.0);
                self.lemma_known_iff_ordered(last.0);
                assert(last == fresh[fresh.len() - 1]);
                assert(!self.knows(fresh[fresh.len() - 1].0));
                if mid.order.contains(last.0) {
                    let j = choose|j: int| 0 <= j < mid.order.len() && mid.order[j] == last.0;
                    if j < self.order.len() {
                        assert(self.order[j] == last.0);
                    } else {
                        let k = j - self.order.len();
                        assert(Self::ids_of(rest)[k] == rest[k].0);
                        assert(rest[k] == fresh[k]);
                    }
                }
            }
            mid.lemma_enlisted(last.0, last.1);
            let after = self.relaunched(fresh);
            assert(after == mid.enlisted(last.0, last.1));
            assert(self.accepts(fresh));
            assert(after.order =~= self.order + Self::ids_of(fresh)) by {
                assert(Self::ids_of(fresh) =~= Self::ids_of(rest).push(last.0));
            }
            assert forall|id: Id| #[trigger] self.launched.contains_key(id) implies after.launched.contains_key(
                id,
            ) && after.launched[id] == self.launched[id] by {
                assert(self.knows(id));
                assert(mid.launched.contains_key(id));
            }
            assert forall|k: int| 0 <= k < fresh.len() implies after.launched.contains_key(
                (#[trigger] fresh[k]).0,
            ) && after.launched[fresh[k].0] == ((self.order.len() + k) as usize, Some(fresh[k].1)) by {
                if k < rest.len() {
                    assert(rest[k] == fresh[k]);
                    assert(mid.launched.contains_key(rest[k].0));
                    assert(fresh[k].0 != fresh[fresh.len() - 1].0);
                } else {
                    assert(fresh[k] == last);
                }
            }
        }
    }

    /// Once the subjects from `start` on are taken out, what comes back
    /// from their restart is launched without a refusal.
    pub proof fn lemma_brings_back(self, start: int, fresh: Seq<(Id, H)>)
        requires
            self.wf(),
            0 <= start <= self.order.len(),
            self.restorable_from(start),
            self.brings_back(start, fresh),
        ensures
            self.drained(start).wf(),
            self.drained(start).admits(fresh),
    {
        let base = self.drained(start);
        self.lemma_drained(start);
        assert forall|k: int| 0 <= k < fresh.len() implies !base.knows((#[trigger] fresh[k]).0) by {
            base.lemma_known_iff_ordered(fresh[k].0);
        }
    }

    /// In a well-formed roster an identifier is filed if and only if it
    /// occurs in the order.
    pub proof fn lemma_known_iff_ordered(self, id: Id)
        requires
            self.wf(),
        ensures
            self.knows(id) <==> self.order.contains(id),
    {
        if self.launched.contains_key(id) {
            assert(self.order[self.launched[id].0 as int] == id);
        }
    }
}

} // verus!
