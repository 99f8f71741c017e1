//! Laws of the registry and of the control protocol.
//!
//! Each law is a theorem about the rosters and states that the operations
//! of a supervisor are specified with; the verifier checks their proofs.
use crate::directive::{Directive, Halt};
use crate::inbox::Sender;
use crate::message::{ControlMessage, Fanout, Id, Mode, Notice};
use crate::protocol::{Event, State};
use crate::roster::Roster;
use crate::strategy::SupervisionStrategy;
use vstd::prelude::*;

verus! {

/// The three headings of a registry are pairwise disjoint, and together
/// they hold exactly the identifiers of the order.
pub proof fn law_headings_partition_order<S, H>(roster: Roster<S, H>)
    requires
        roster.wf(),
    ensures
        roster.launched.dom().disjoint(roster.stopped.dom()),
        roster.launched.dom().disjoint(roster.killed.dom()),
        roster.stopped.dom().disjoint(roster.killed.dom()),
        roster.launched.dom().union(roster.stopped.dom()).union(roster.killed.dom())
            == roster.order.to_set(),
{
    let filed = roster.launched.dom().union(roster.stopped.dom()).union(roster.killed.dom());
    assert forall|id: Id| filed.contains(id) <==> roster.order.to_set().contains(id) by {
        roster.lemma_known_iff_ordered(id);
    }
    assert(filed =~= roster.order.to_set());
}

/// The ordinal of a launched subject is the position of its identifier in
/// the order.
pub proof fn law_ordinal_is_position<S, H>(roster: Roster<S, H>, id: Id)
    requires
        roster.wf(),
        roster.launched.contains_key(id),
    ensures
        0 <= roster.launched[id].0 < roster.order.len(),
        roster.order[roster.launched[id].0 as int] == id,
        roster.order.index_of(id) == roster.launched[id].0,
{
    let at = roster.launched[id].0 as int;
    assert(roster.order[at] == id);
    let found = roster.order.index_of(id);
    assert(roster.order.contains(id));
    assert(0 <= found < roster.order.len() && roster.order[found] == id);
}

/// Handling a message keeps the invariant of the supervisor.
pub proof fn law_handling_keeps_invariant<S, H, M>(state: State<S, H, M>, msg: ControlMessage<S, M>)
    requires
        state.wf(),
    ensures
        state.handled(msg).wf(),
        state.handled(msg).started == state.started,
        state.handled(msg).buffer == state.buffer,
{
    let order_len = state.roster.order.len() as int;
    state.roster.lemma_checked_out(0, order_len);
    match msg {
        ControlMessage::Stopped { id } => {
            state.roster.lemma_taken(id);
        },
        ControlMessage::Faulted { id } => {
            state.roster.lemma_taken(id);
            state.roster.lemma_checked_out(state.restart_from(id), order_len);
        },
        _ => {},
    }
}

/// Whatever happens to a supervisor, its invariant is kept: the headings of
/// its registry partition the order, the ordinal of each launched subject
/// is its position, and nothing is buffered once it has been started.
pub proof fn law_invariant_is_kept<S, H, M>(state: State<S, H, M>, event: Event<S, H, M>)
    requires
        state.wf(),
    ensures
        state.after(event).wf(),
{
    let order_len = state.roster.order.len() as int;
    match event {
        Event::Received(msg) => {
            law_handling_keeps_invariant(state, msg);
        },
        Event::Handled(msg) => {
            law_handling_keeps_invariant(state, msg);
        },
        Event::Configured(strategy) => {},
        Event::Halted { start } => {
            state.roster.lemma_checked_out(start as int, order_len);
        },
        Event::Recovering { id } => {
            state.roster.lemma_taken(id);
            state.roster.lemma_checked_out(state.restart_from(id), order_len);
        },
        Event::Settled { id, mode, outcome } => {
            state.roster.lemma_settled(id, mode, outcome);
        },
        Event::Enlisted { id, handle } => {
            state.roster.lemma_enrolled(id, handle);
        },
        Event::Replaced { old, new, handle } => {
            if state.roster.replaceable(old, new) {
                state.roster.lemma_replaced(old, new, handle);
            }
        },
        Event::Restarted { start } => {
            if start <= state.roster.order.len() && state.roster.restorable_from(start as int) {
                state.roster.lemma_drained(start as int);
            }
        },
        Event::Reset { inbox } => {
            if state.roster.restorable_from(0) {
                state.roster.lemma_drained(0);
            }
        },
    }
}

/// Every state that a new supervisor can reach satisfies the invariant.
pub proof fn law_reachable_states_are_well_formed<S, H, M>(
    id: Id,
    inbox: Sender<S, M>,
    system: bool,
    events: Seq<Event<S, H, M>>,
)
    ensures
        State::<S, H, M>::initial(id, inbox, system).run(events).wf(),
    decreases events.len(),
{
    let initial = State::<S, H, M>::initial(id, inbox, system);
    if events.len() > 0 {
        law_reachable_states_are_well_formed::<S, H, M>(id, inbox, system, events.drop_last());
        law_invariant_is_kept(initial.run(events.drop_last()), events.last());
    }
}

/// The first start message empties the buffer.
pub proof fn law_start_empties_buffer<S, H, M>(state: State<S, H, M>)
    requires
        state.wf(),
    ensures
        state.received(ControlMessage::Start).started,
        state.received(ControlMessage::Start).buffer.len() == 0,
{
}

/// Once a supervisor has been started, it stays started and its buffer
/// stays empty, whatever happens to it, until it is reset.
pub proof fn law_buffer_stays_empty<S, H, M>(state: State<S, H, M>, event: Event<S, H, M>)
    requires
        state.wf(),
        state.started,
        !(event is Reset),
    ensures
        state.after(event).started,
        state.after(event).buffer.len() == 0,
{
    match event {
        Event::Received(msg) => {
            law_handling_keeps_invariant(state, msg);
        },
        Event::Handled(msg) => {
            law_handling_keeps_invariant(state, msg);
        },
        _ => {},
    }
}

/// A reset leaves the supervisor not started, with an empty buffer.
pub proof fn law_reset_unstarts<S, H, M>(state: State<S, H, M>, inbox: Option<(Id, Sender<S, M>)>)
    ensures
        !state.reset(inbox).started,
        state.reset(inbox).buffer.len() == 0,
{
}

/// Once every subject has been stopped or killed and the end of each
/// running task has been reported, no subject is launched: each is filed
/// under stopped or killed, at the place it has in the order.
pub proof fn law_halt_leaves_nobody_launched<S, H>(
    roster: Roster<S, H>,
    mode: Mode,
    reports: Seq<(Id, Option<S>)>,
)
    requires
        roster.wf(),
        forall|id: Id| #[trigger] roster.launched.contains_key(id) ==> roster.running(id),
        reports.len() == roster.joins(0, roster.order.len() as int).len(),
        forall|k: int|
            0 <= k < reports.len() ==> (#[trigger] reports[k]).0 == roster.joins(
                0,
                roster.order.len() as int,
            )[k].0,
    ensures
        roster.checked_out(0, roster.order.len() as int).settled_each(mode, reports).wf(),
        roster.checked_out(0, roster.order.len() as int).settled_each(mode, reports).order
            == roster.order,
        roster.checked_out(0, roster.order.len() as int).settled_each(mode, reports).launched
            == Map::<Id, (usize, Option<H>)>::empty(),
{
    let len = roster.order.len() as int;
    let halted = roster.checked_out(0, len);
    let after = halted.settled_each(mode, reports);
    roster.lemma_checked_out(0, len);
    assert forall|id: Id| #[trigger] halted.launched.contains_key(id) implies halted.joining(id) by {
        assert(roster.launched.contains_key(id));
    }
    halted.lemma_settled_each(mode, reports);
    assert forall|id: Id| !after.launched.contains_key(id) by {
        if halted.launched.contains_key(id) {
            let at = roster.launched[id].0 as int;
            assert(roster.order[at] == id);
            lemma_running_subject_is_joined(roster, 0, len, at);
            let k = choose|k: int|
                0 <= k < roster.joins(0, len).len() && (#[trigger] roster.joins(0, len)[k]).0 == id;
            assert(reports[k].0 == id);
        }
    }
    assert(after.launched =~= Map::<Id, (usize, Option<H>)>::empty());
}

/// After a graceful stop of every subject, where each task gives its
/// subject back, every subject that was launched is filed under stopped
/// with the value that its task gave back; those that were dormant are
/// where they were.
pub proof fn law_graceful_stop_files_under_stopped<S, H>(
    roster: Roster<S, H>,
    reports: Seq<(Id, Option<S>)>,
)
    requires
        roster.wf(),
        forall|id: Id| #[trigger] roster.launched.contains_key(id) ==> roster.running(id),
        reports.len() == roster.joins(0, roster.order.len() as int).len(),
        forall|k: int|
            0 <= k < reports.len() ==> (#[trigger] reports[k]).0 == roster.joins(
                0,
                roster.order.len() as int,
            )[k].0 && reports[k].1 is Some,
    ensures
        roster.checked_out(0, roster.order.len() as int).settled_each(Mode::Stop, reports).killed
            == roster.killed,
        forall|id: Id| #[trigger]
            roster.stopped.contains_key(id) ==> roster.checked_out(
                0,
                roster.order.len() as int,
            ).settled_each(Mode::Stop, reports).stopped.contains_key(id) && roster.checked_out(
                0,
                roster.order.len() as int,
            ).settled_each(Mode::Stop, reports).stopped[id] == roster.stopped[id],
        forall|k: int|
            0 <= k < reports.len() ==> roster.checked_out(0, roster.order.len() as int).settled_each(
                Mode::Stop,
                reports,
            ).stopped.contains_key((#[trigger] reports[k]).0) && roster.checked_out(
                0,
                roster.order.len() as int,
            ).settled_each(Mode::Stop, reports).stopped[reports[k].0] == reports[k].1->0,
        forall|id: Id| #[trigger]
            roster.launched.contains_key(id) ==> roster.checked_out(
                0,
                roster.order.len() as int,
            ).settled_each(Mode::Stop, reports).stopped.contains_key(id),
{
    let len = roster.order.len() as int;
    let joins = roster.joins(0, len);
    let halted = roster.checked_out(0, len);
    roster.lemma_checked_out(0, len);
    roster.lemma_joins(0, len);
    assert forall|id: Id| #[trigger] halted.launched.contains_key(id) implies halted.joining(id) by {
        assert(roster.launched.contains_key(id));
    }
    assert forall|k: int| 0 <= k < reports.len() implies halted.launched.contains_key(
        (#[trigger] reports[k]).0,
    ) && reports[k].1 is Some by {
        assert(roster.running(joins[k].0));
    }
    assert forall|k: int, l: int| 0 <= k < l < reports.len() implies (#[trigger] reports[k]).0 != (
    #[trigger] reports[l]).0 by {
        assert(joins[k].0 != joins[l].0);
    }
    halted.lemma_stopped_each(reports);
    assert forall|id: Id| #[trigger] roster.launched.contains_key(id) implies halted.settled_each(
        Mode::Stop,
        reports,
    ).stopped.contains_key(id) by {
        let at = roster.launched[id].0 as int;
        assert(roster.order[at] == id);
        lemma_running_subject_is_joined(roster, 0, len, at);
        let k = choose|k: int| 0 <= k < joins.len() && (#[trigger] joins[k]).0 == id;
        assert(reports[k].0 == id);
    }
}

/// A running subject at a position from `lo` up to, not including, `hi`
/// is among the joins of these positions.
proof fn lemma_running_subject_is_joined<S, H>(roster: Roster<S, H>, lo: int, hi: int, at: int)
    requires
        0 <= lo <= at < hi <= roster.order.len(),
        roster.running(roster.order[at]),
    ensures
        exists|k: int|
            0 <= k < roster.joins(lo, hi).len() && (#[trigger] roster.joins(lo, hi)[k]).0
                == roster.order[at],
    decreases hi - lo,
{
    let range = roster.order.subrange(lo, hi);
    let shorter = roster.order.subrange(lo, hi - 1);
    assert(range.drop_last() =~= shorter);
    assert(range.last() == roster.order[hi - 1]);
    let rest = roster.joins(lo, hi - 1);
    if at == hi - 1 {
        assert(roster.joins(lo, hi) =~= rest + seq![(roster.order[at], roster.launched[roster.order[at]].1->0)]);
        assert(roster.joins(lo, hi)[rest.len() as int].0 == roster.order[at]);
    } else {
        lemma_running_subject_is_joined(roster, lo, hi - 1, at);
        let k = choose|k: int| 0 <= k < rest.len() && (#[trigger] rest[k]).0 == roster.order[at];
        assert(roster.joins(lo, hi)[k] == rest[k]);
    }
}

/// A one-for-one restart keeps every other identifier at its position, and
/// puts the new identifier where the old one was.
pub proof fn law_replacement_keeps_order<S, H>(roster: Roster<S, H>, old: Id, new: Id, handle: H)
    requires
        roster.wf(),
        roster.replaceable(old, new),
    ensures
        roster.replaced(old, new, handle).wf(),
        roster.replaced(old, new, handle).order.len() == roster.order.len(),
        forall|i: int|
            0 <= i < roster.order.len() && roster.order[i] != old ==> roster.replaced(
                old,
                new,
                handle,
            ).order[i] == #[trigger] roster.order[i],
        roster.replaced(old, new, handle).order[roster.launched[old].0 as int] == new,
        roster.replaced(old, new, handle).launched[new] == (roster.launched[old].0, Some(handle)),
{
    roster.lemma_replaced(old, new, handle);
    assert(roster.order[roster.launched[old].0 as int] == old);
}

/// A restart of the subjects from position `start` on gives each of them
/// the ordinal it had: the order is as long as before, the subjects before
/// `start` are untouched, and the subject that was at a position from
/// `start` on is launched at that position again, under the identifier
/// that it came back with.
pub proof fn law_restart_keeps_ordinal<S, H>(roster: Roster<S, H>, start: int, fresh: Seq<(Id, H)>)
    requires
        roster.wf(),
        0 <= start <= roster.order.len(),
        roster.restorable_from(start),
        roster.brings_back(start, fresh),
    ensures
        roster.drained(start).accepts(fresh),
        roster.rebuilt(start, fresh).wf(),
        roster.rebuilt(start, fresh).order.len() == roster.order.len(),
        roster.rebuilt(start, fresh).order == roster.order.subrange(0, start) + Roster::<
            S,
            H,
        >::ids_of(fresh),
        forall|i: int| 0 <= i < start ==> roster.rebuilt(start, fresh).order[i] == #[trigger] roster.order[i],
        forall|i: int|
            start <= i < roster.order.len() ==> {
                &&& #[trigger] roster.rebuilt(start, fresh).order[i] == fresh[i - start].0
                &&& roster.rebuilt(start, fresh).launched.contains_key(fresh[i - start].0)
                &&& roster.rebuilt(start, fresh).launched[fresh[i - start].0] == (
                    i as usize,
                    Some(fresh[i - start].1),
                )
            },
        forall|id: Id| #[trigger]
            roster.rebuilt(start, fresh).stopped.contains_key(id) ==> roster.order.subrange(
                0,
                start,
            ).contains(id),
        forall|id: Id| #[trigger]
            roster.rebuilt(start, fresh).killed.contains_key(id) ==> roster.order.subrange(
                0,
                start,
            ).contains(id),
        forall|id: Id| #[trigger]
            roster.launched.contains_key(id) ==> roster.rebuilt(start, fresh).launched.contains_key(id)
                && roster.rebuilt(start, fresh).launched[id] == roster.launched[id],
        forall|i: int|
            start <= i < roster.order.len() ==> !roster.rebuilt(start, fresh).stopped.contains_key(
                #[trigger] roster.order[i],
            ) && !roster.rebuilt(start, fresh).killed.contains_key(roster.order[i]),
{
    let base = roster.drained(start);
    let after = roster.rebuilt(start, fresh);
    roster.lemma_brings_back(start, fresh);
    base.lemma_relaunched(fresh);
    assert forall|i: int| start <= i < roster.order.len() implies {
        &&& #[trigger] after.order[i] == fresh[i - start].0
        &&& after.launched.contains_key(fresh[i - start].0)
        &&& after.launched[fresh[i - start].0] == (i as usize, Some(fresh[i - start].1))
    } by {
        let k = i - start;
        assert(Roster::<S, H>::ids_of(fresh)[k] == fresh[k].0);
        assert(after.launched.contains_key(fresh[k].0));
    }
    assert forall|id: Id| #[trigger] after.stopped.contains_key(id) implies roster.order.subrange(
        0,
        start,
    ).contains(id) by {
        assert(base.knows(id));
        base.lemma_known_iff_ordered(id);
    }
    assert forall|id: Id| #[trigger] after.killed.contains_key(id) implies roster.order.subrange(
        0,
        start,
    ).contains(id) by {
        assert(base.knows(id));
        base.lemma_known_iff_ordered(id);
    }
    assert forall|i: int| start <= i < roster.order.len() implies !after.stopped.contains_key(
        #[trigger] roster.order[i],
    ) && !after.killed.contains_key(roster.order[i]) by {
        let prefix = roster.order.subrange(0, start);
        if prefix.contains(roster.order[i]) {
            let j = choose|j: int| 0 <= j < prefix.len() && prefix[j] == roster.order[i];
            assert(roster.order[j] == roster.order[i]);
        }
    }
}

/// A reset of the supervisor from which every subject comes back leaves as
/// many subjects as before, all of them launched, each with its position
/// as its ordinal, in the sequence in which they came back. Nothing is
/// dormant, nothing is buffered, and the supervisor is not started.
pub proof fn law_reset_relaunches_everything<S, H, M>(
    state: State<S, H, M>,
    inbox: Option<(Id, Sender<S, M>)>,
    fresh: Seq<(Id, H)>,
)
    requires
        state.wf(),
        state.roster.restorable_from(0),
        state.roster.brings_back(0, fresh),
    ensures
        state.after(Event::Reset { inbox }) == state.reset(inbox),
        !state.reset(inbox).started,
        state.reset(inbox).buffer.len() == 0,
        state.reset(inbox).roster.accepts(fresh),
        state.reset(inbox).roster.relaunched(fresh).wf(),
        state.reset(inbox).roster.relaunched(fresh).order == Roster::<S, H>::ids_of(fresh),
        state.reset(inbox).roster.relaunched(fresh).order.len() == state.roster.order.len(),
        forall|i: int|
            0 <= i < state.roster.order.len() ==> {
                &&& state.reset(inbox).roster.relaunched(fresh).launched.contains_key(
                    (#[trigger] fresh[i]).0,
                )
                &&& state.reset(inbox).roster.relaunched(fresh).launched[fresh[i].0] == (
                    i as usize,
                    Some(fresh[i].1),
                )
                &&& state.reset(inbox).roster.relaunched(fresh).order[i] == fresh[i].0
            },
        state.reset(inbox).roster.relaunched(fresh).stopped == Map::<Id, S>::empty(),
        state.reset(inbox).roster.relaunched(fresh).killed == Map::<Id, Option<S>>::empty(),
{
    let roster = state.roster;
    let after = roster.rebuilt(0, fresh);
    law_restart_keeps_ordinal(roster, 0, fresh);
    assert(state.reset(inbox).roster.relaunched(fresh) == after);
    assert(roster.order.subrange(0, 0) =~= Seq::<Id>::empty());
    assert(after.order =~= Roster::<S, H>::ids_of(fresh));
    assert forall|i: int| 0 <= i < roster.order.len() implies {
        &&& after.launched.contains_key((#[trigger] fresh[i]).0)
        &&& after.launched[fresh[i].0] == (i as usize, Some(fresh[i].1))
        &&& after.order[i] == fresh[i].0
    } by {
        assert(after.order[i] == fresh[i - 0].0);
    }
    assert(after.stopped =~= Map::<Id, S>::empty());
    assert(after.killed =~= Map::<Id, Option<S>>::empty());
}

/// Under one-for-one, the restart of a running subject puts the identifier
/// that it comes back with where the old one stood, with the ordinal that
/// it had, and files the old identifier nowhere. Every other subject,
/// launched or dormant, is as it was. The new identifier is the old one
/// or one that is not filed.
pub proof fn law_one_for_one_restart<S, H, M>(state: State<S, H, M>, id: Id, new: Id, handle: H)
    requires
        state.wf(),
        state.strategy == SupervisionStrategy::OneForOne,
        state.roster.running(id),
        new == id || !state.roster.knows(new),
    ensures
        state.recoverable(id),
        state.recovering(id).wf(),
        state.recovering(id).roster.replaceable(id, new),
        state.recovering(id).roster.replaced(id, new, handle).wf(),
        state.recovering(id).roster.replaced(id, new, handle).order == state.roster.order.update(
            state.roster.launched[id].0 as int,
            new,
        ),
        state.recovering(id).roster.replaced(id, new, handle).launched.contains_key(new),
        state.recovering(id).roster.replaced(id, new, handle).launched[new] == (
            state.roster.launched[id].0,
            Some(handle),
        ),
        forall|other: Id|
            other != id && #[trigger] state.roster.launched.contains_key(other) ==> state.recovering(
                id,
            ).roster.replaced(id, new, handle).launched.contains_key(other) && state.recovering(
                id,
            ).roster.replaced(id, new, handle).launched[other] == state.roster.launched[other],
        forall|other: Id| #[trigger]
            state.recovering(id).roster.replaced(id, new, handle).launched.contains_key(other)
                ==> other == new || state.roster.launched.contains_key(other),
        state.recovering(id).roster.replaced(id, new, handle).stopped == state.roster.stopped,
        state.recovering(id).roster.replaced(id, new, handle).killed == state.roster.killed,
        new != id ==> !state.recovering(id).roster.replaced(id, new, handle).knows(id),
{
    let mid = state.recovering(id).roster;
    state.roster.lemma_taken(id);
    assert(mid == state.roster.taken(id));
    mid.lemma_replaced(id, new, handle);
}

/// Under one-for-all and rest-for-one, the restart after a fault of `id`
/// goes from position 0, or from the position of `id`, to the end. Where
/// every subject of that range runs or can be reset, the end of each
/// running task is reported with its subject, and every subject comes back,
/// the order is as long as before; the subjects before the range are as
/// they were, launched or dormant; and each subject of the range is
/// launched at the position it had, under the identifier that it came back
/// with. No identifier of the range is dormant any more.
pub proof fn law_bulk_restart<S, H, M>(
    state: State<S, H, M>,
    id: Id,
    reports: Seq<(Id, Option<S>)>,
    fresh: Seq<(Id, H)>,
)
    requires
        state.wf(),
        state.strategy != SupervisionStrategy::OneForOne,
        state.recoverable(id),
        forall|i: int|
            state.restart_from(id) <= i < state.roster.order.len() ==> state.roster.running(
                #[trigger] state.roster.order[i],
            ) || state.roster.restorable(state.roster.order[i]),
        reports.len() == state.roster.joins(
            state.restart_from(id),
            state.roster.order.len() as int,
        ).len(),
        forall|k: int|
            0 <= k < reports.len() ==> (#[trigger] reports[k]).0 == state.roster.joins(
                state.restart_from(id),
                state.roster.order.len() as int,
            )[k].0 && reports[k].1 is Some,
        state.roster.brings_back(state.restart_from(id), fresh),
    ensures
        0 <= state.restart_from(id) <= state.roster.order.len(),
        state.recovering(id) == state.halted(state.restart_from(id)),
        ({
            let start = state.restart_from(id);
            let len = state.roster.order.len() as int;
            let settled = state.roster.checked_out(start, len).settled_each(Mode::Kill, reports);
            let after = settled.rebuilt(start, fresh);
            &&& settled.wf()
            &&& settled.order == state.roster.order
            &&& settled.restorable_from(start)
            &&& settled.drained(start).accepts(fresh)
            &&& after.wf()
            &&& after.order == state.roster.order.subrange(0, start) + Roster::<S, H>::ids_of(fresh)
            &&& after.order.len() == len
            &&& forall|i: int|
                start <= i < len ==> {
                    &&& after.launched.contains_key((#[trigger] fresh[i - start]).0)
                    &&& after.launched[fresh[i - start].0] == (i as usize, Some(fresh[i - start].1))
                    &&& after.order[i] == fresh[i - start].0
                }
            &&& forall|other: Id|
                #[trigger] state.roster.launched.contains_key(other) && state.roster.launched[other].0
                    < start ==> after.launched.contains_key(other) && after.launched[other]
                    == state.roster.launched[other]
            &&& forall|other: Id| #[trigger]
                after.stopped.contains_key(other) ==> state.roster.order.subrange(0, start).contains(
                    other,
                )
            &&& forall|other: Id| #[trigger]
                after.killed.contains_key(other) ==> state.roster.order.subrange(0, start).contains(
                    other,
                )
        }),
{
    let roster = state.roster;
    let start = state.restart_from(id);
    let len = roster.order.len() as int;
    let joins = roster.joins(start, len);
    let halted = roster.checked_out(start, len);
    let settled = halted.settled_each(Mode::Kill, reports);
    let after = settled.rebuilt(start, fresh);
    roster.lemma_checked_out(start, len);
    roster.lemma_joins(start, len);
    assert forall|k: int| 0 <= k < reports.len() implies halted.joining((#[trigger] reports[k]).0) by {
        assert(roster.running(joins[k].0));
        let at = choose|at: int| start <= at < len && roster.order[at] == joins[k].0;
        assert(roster.order[roster.launched[joins[k].0].0 as int] == joins[k].0);
    }
    assert forall|k: int, l: int| 0 <= k < l < reports.len() implies (#[trigger] reports[k]).0 != (
    #[trigger] reports[l]).0 by {
        assert(joins[k].0 != joins[l].0);
    }
    halted.lemma_reported_each(Mode::Kill, reports);
    assert forall|i: int| start <= i < settled.order.len() implies settled.restorable(
        #[trigger] settled.order[i],
    ) by {
        let at_i = roster.order[i];
        if roster.running(at_i) {
            lemma_running_subject_is_joined(roster, start, len, i);
            let k = choose|k: int| 0 <= k < joins.len() && (#[trigger] joins[k]).0 == at_i;
            assert(reports[k].0 == at_i);
        } else {
            assert(roster.restorable(at_i));
        }
    }
    assert(settled.brings_back(start, fresh));
    law_restart_keeps_ordinal(settled, start, fresh);
    assert forall|i: int| start <= i < len implies {
        &&& after.launched.contains_key((#[trigger] fresh[i - start]).0)
        &&& after.launched[fresh[i - start].0] == (i as usize, Some(fresh[i - start].1))
        &&& after.order[i] == fresh[i - start].0
    } by {
        assert(after.order[i] == fresh[i - start].0);
    }
    assert forall|other: Id|
        #[trigger] roster.launched.contains_key(other) && roster.launched[other].0
            < start implies after.launched.contains_key(other) && after.launched[other]
        == roster.launched[other] by {
        let at = roster.launched[other].0 as int;
        assert(roster.order[at] == other);
        if exists|k: int| 0 <= k < reports.len() && (#[trigger] reports[k]).0 == other {
            let k = choose|k: int| 0 <= k < reports.len() && (#[trigger] reports[k]).0 == other;
            let there = choose|there: int| start <= there < len && roster.order[there] == joins[k].0;
            assert(roster.order[there] == roster.order[at]);
        }
        assert(settled.launched.contains_key(other));
    }
}

/// After any restart of the subjects from position `start` on, an
/// identifier that survives stands where it stood, so that the surviving
/// identifiers are in the order in which they were deployed. This holds
/// where each identifier that a reset hands out is either the one that the
/// subject had or one that was not in the order before.
pub proof fn law_restart_keeps_order<S, H>(
    roster: Roster<S, H>,
    start: int,
    fresh: Seq<(Id, H)>,
    i: int,
    j: int,
)
    requires
        roster.wf(),
        0 <= start <= roster.order.len(),
        roster.restorable_from(start),
        roster.brings_back(start, fresh),
        forall|k: int|
            0 <= k < fresh.len() ==> (#[trigger] fresh[k]).0 == roster.order[start + k]
                || !roster.order.contains(fresh[k].0),
        0 <= i < j < roster.order.len(),
        roster.rebuilt(start, fresh).order.contains(roster.order[i]),
        roster.rebuilt(start, fresh).order.contains(roster.order[j]),
    ensures
        roster.rebuilt(start, fresh).order[i] == roster.order[i],
        roster.rebuilt(start, fresh).order[j] == roster.order[j],
        roster.rebuilt(start, fresh).order.index_of(roster.order[i]) < roster.rebuilt(
            start,
            fresh,
        ).order.index_of(roster.order[j]),
{
    law_restart_keeps_ordinal(roster, start, fresh);
    let after = roster.rebuilt(start, fresh);
    lemma_survivor_stays(roster, start, fresh, i);
    lemma_survivor_stays(roster, start, fresh, j);
    let at_i = after.order.index_of(roster.order[i]);
    let at_j = after.order.index_of(roster.order[j]);
    assert(0 <= at_i < after.order.len() && after.order[at_i] == roster.order[i]);
    assert(0 <= at_j < after.order.len() && after.order[at_j] == roster.order[j]);
}

/// An identifier that survives a restart stands where it stood.
proof fn lemma_survivor_stays<S, H>(roster: Roster<S, H>, start: int, fresh: Seq<(Id, H)>, i: int)
    requires
        roster.wf(),
        0 <= start <= roster.order.len(),
        roster.restorable_from(start),
        roster.brings_back(start, fresh),
        forall|k: int|
            0 <= k < fresh.len() ==> (#[trigger] fresh[k]).0 == roster.order[start + k]
                || !roster.order.contains(fresh[k].0),
        0 <= i < roster.order.len(),
        roster.rebuilt(start, fresh).order.contains(roster.order[i]),
    ensures
        roster.rebuilt(start, fresh).order[i] == roster.order[i],
{
    law_restart_keeps_ordinal(roster, start, fresh);
    let after = roster.rebuilt(start, fresh);
    let id = roster.order[i];
    let at = choose|at: int| 0 <= at < after.order.len() && after.order[at] == id;
    if at < start {
        assert(after.order[at] == roster.order[at]);
    } else {
        let k = at - start;
        assert(after.order[at] == fresh[k].0);
        assert(roster.order.contains(id));
        assert(fresh[k].0 == roster.order[start + k]);
    }
}

/// Setting the strategy twice leaves the supervisor as setting it to the
/// second value does.
pub proof fn law_last_strategy_wins<S, H, M>(
    state: State<S, H, M>,
    first: SupervisionStrategy,
    second: SupervisionStrategy,
)
    ensures
        state.handled(ControlMessage::SuperviseWith(first)).handled(
            ControlMessage::SuperviseWith(second),
        ) == state.handled(ControlMessage::SuperviseWith(second)),
        state.handled(ControlMessage::SuperviseWith(second)).strategy == second,
        state.started ==> state.received(ControlMessage::SuperviseWith(first)).received(
            ControlMessage::SuperviseWith(second),
        ) == state.received(ControlMessage::SuperviseWith(second)),
{
}

/// A stop or a kill from position 0 goes out as one operation on the whole
/// group; from any later position it goes out to each subject from there
/// on, in deployment order.
pub proof fn law_fanout_by_start<S, H>(halt: Halt<H>, roster: Roster<S, H>, mode: Mode, start: int)
    requires
        0 <= start <= roster.order.len(),
        halt.carries(roster, mode, start),
    ensures
        start == 0 <==> halt.fanout is Group,
        start > 0 ==> (halt.fanout matches Fanout::Each(ids) && ids@ == roster.order.subrange(
            start,
            roster.order.len() as int,
        )),
{
}

/// Handling a payload to broadcast changes nothing in the supervisor and
/// asks for nothing but the fan-out of that payload. Where no subject is
/// filed, no subject is there to receive it.
pub proof fn law_broadcast_changes_nothing<S, H, M>(
    state: State<S, H, M>,
    payload: M,
    directive: Directive<S, H, M>,
)
    requires
        state.directs(ControlMessage::Message(payload), directive),
    ensures
        state.handled(ControlMessage::Message(payload)) == state,
        directive == Directive::<S, H, M>::Broadcast(payload),
{
}

/// A fault of an identifier that is not filed makes the restart engine
/// fail, unless the strategy is one-for-all, which does not look at the
/// identifier: every subject is killed and the fault is passed on.
pub proof fn law_unknown_fault_escalates<S, H, M>(
    state: State<S, H, M>,
    id: Id,
    directive: Directive<S, H, M>,
)
    requires
        state.wf(),
        !state.roster.knows(id),
        state.strategy != SupervisionStrategy::OneForAll,
        state.directs(ControlMessage::Faulted { id }, directive),
    ensures
        !state.recoverable(id),
        state.handled(ControlMessage::Faulted { id }) == state.halted(0),
        directive matches Directive::Terminate { halt, notice } && notice == Notice::Faulted
            && halt.carries(state.roster, Mode::Kill, 0) && halt.fanout is Group,
{
}

} // verus!
