//! What the volume worker makes of whole streams of updates.
use vstd::prelude::*;
use crate::volume::{ActionView, Device, EventView, WorkerView, SETTLE_WINDOW};

verus! {

/// A volume that was set on a device.
pub type Application = (Device, u8);

/// The worker after a stream of events.
pub open spec fn after(worker: WorkerView, events: Seq<EventView>) -> WorkerView
    decreases events.len(),
{
    if events.len() == 0 {
        worker
    } else {
        after(worker.step(events[0]).0, events.drop_first())
    }
}

/// What the worker applies over a stream of events, in order.
pub open spec fn applied(worker: WorkerView, events: Seq<EventView>) -> Seq<Application>
    decreases events.len(),
{
    if events.len() == 0 {
        Seq::empty()
    } else {
        let (next, action) = worker.step(events[0]);
        let rest = applied(next, events.drop_first());
        match action {
            ActionView::Apply { device, volume } => seq![(device, volume)] + rest,
            _ => rest,
        }
    }
}

/// An update and the time at which it comes in, in nanoseconds.
pub ghost struct Update {
    pub at: nat,
    pub device: Device,
    pub volume: u8,
}

impl Update {
    pub open spec fn arrival(self) -> EventView {
        EventView::Arrived { device: self.device, volume: self.volume }
    }

    pub open spec fn application(self) -> Application {
        (self.device, self.volume)
    }
}

/// The events of updates that come in with no quiet between them.
pub open spec fn arrivals(updates: Seq<Update>) -> Seq<EventView> {
    updates.map_values(|update: Update| update.arrival())
}

/// The events of a burst that is left to settle.
pub open spec fn burst(updates: Seq<Update>) -> Seq<EventView> {
    arrivals(updates).push(EventView::Quiet)
}

/// The time from update `i` to the next one.
pub open spec fn gap(updates: Seq<Update>, i: int) -> int {
    updates[i + 1].at - updates[i].at
}

/// Whether the settle window passes after update `i` and before the next one, if there is one.
pub open spec fn quiet_after(updates: Seq<Update>, i: int) -> bool {
    i + 1 == updates.len() || gap(updates, i) >= SETTLE_WINDOW
}

/// The events that updates at their times amount to: the window starts anew with every update,
/// and its end is an event of its own.
pub open spec fn timed_events(updates: Seq<Update>) -> Seq<EventView>
    decreases updates.len(),
{
    if updates.len() == 0 {
        Seq::empty()
    } else {
        let rest = timed_events(updates.drop_first());
        if quiet_after(updates, 0) {
            seq![updates[0].arrival(), EventView::Quiet] + rest
        } else {
            seq![updates[0].arrival()] + rest
        }
    }
}

/// What a burst comes to: the last volume, on the device that it began with.
pub open spec fn collapsed(updates: Seq<Update>) -> Application {
    (updates[0].device, updates.last().volume)
}

/// The events of several bursts, each of which is left to settle.
pub open spec fn bursts(groups: Seq<Seq<Update>>) -> Seq<EventView>
    decreases groups.len(),
{
    if groups.len() == 0 {
        Seq::empty()
    } else {
        burst(groups[0]) + bursts(groups.drop_first())
    }
}

/// A stream of events can be cut in two: what is applied over the whole is what is applied over
/// the first part, followed by what the worker it leads to applies over the second.
pub proof fn law_streams_concatenate(
    worker: WorkerView,
    first: Seq<EventView>,
    second: Seq<EventView>,
)
    ensures
        after(worker, first + second) == after(after(worker, first), second),
        applied(worker, first + second) == applied(worker, first) + applied(
            after(worker, first),
            second,
        ),
    decreases first.len(),
{
    if first.len() == 0 {
        assert(first + second =~= second);
        assert(applied(worker, first) + applied(worker, second) =~= applied(worker, second));
    } else {
        let (next, action) = worker.step(first[0]);
        assert((first + second).drop_first() =~= first.drop_first() + second);
        law_streams_concatenate(next, first.drop_first(), second);
        assert(applied(worker, first + second) =~= applied(worker, first) + applied(
            after(worker, first),
            second,
        ));
    }
}

/// Updates during a burst only replace the latest volume.
proof fn lemma_settling(device: Device, latest: u8, updates: Seq<Update>)
    ensures
        applied(WorkerView::Settling { device, latest }, arrivals(updates)) == Seq::<
            Application,
        >::empty(),
        after(WorkerView::Settling { device, latest }, arrivals(updates)) == (WorkerView::Settling {
            device,
            latest: if updates.len() == 0 {
                latest
            } else {
                updates.last().volume
            },
        }),
    decreases updates.len(),
{
    if updates.len() > 0 {
        assert(arrivals(updates).drop_first() =~= arrivals(updates.drop_first()));
        lemma_settling(device, updates[0].volume, updates.drop_first());
    }
}

/// A burst collapses to a single application: the latest volume, on the device that the burst
/// began with. The worker is then as it was before.
pub proof fn law_burst_collapses(updates: Seq<Update>)
    requires
        updates.len() > 0,
    ensures
        applied(WorkerView::Idle, burst(updates)) == seq![collapsed(updates)],
        after(WorkerView::Idle, burst(updates)) == WorkerView::Idle,
{
    let quiet = seq![EventView::Quiet];
    assert(burst(updates) =~= arrivals(updates) + quiet);
    assert(arrivals(updates).drop_first() =~= arrivals(updates.drop_first()));
    let begun = WorkerView::Settling { device: updates[0].device, latest: updates[0].volume };
    assert(WorkerView::Idle.step(arrivals(updates)[0]).0 == begun);
    lemma_settling(updates[0].device, updates[0].volume, updates.drop_first());
    law_streams_concatenate(WorkerView::Idle, arrivals(updates), quiet);
    let settled = WorkerView::Settling {
        device: updates[0].device,
        latest: updates.last().volume,
    };
    assert(after(WorkerView::Idle, arrivals(updates)) == settled);
    assert(quiet.drop_first() =~= Seq::empty());
    assert(after(settled.step(quiet[0]).0, quiet.drop_first()) == WorkerView::Idle);
    assert(applied(settled.step(quiet[0]).0, quiet.drop_first()) =~= Seq::empty());
    assert(applied(settled, quiet) =~= seq![(updates[0].device, updates.last().volume)]);
}

/// Every burst of a stream makes exactly one application, and they come in the order of the
/// bursts.
pub proof fn law_one_application_per_burst(groups: Seq<Seq<Update>>)
    requires
        forall|i: int| 0 <= i < groups.len() ==> (#[trigger] groups[i]).len() > 0,
    ensures
        applied(WorkerView::Idle, bursts(groups)) == groups.map_values(
            |updates: Seq<Update>| collapsed(updates),
        ),
        after(WorkerView::Idle, bursts(groups)) == WorkerView::Idle,
    decreases groups.len(),
{
    let each = |updates: Seq<Update>| collapsed(updates);
    if groups.len() > 0 {
        let rest = groups.drop_first();
        assert forall|i: int| 0 <= i < rest.len() implies (#[trigger] rest[i]).len() > 0 by {
            assert(rest[i] == groups[i + 1]);
        }
        law_burst_collapses(groups[0]);
        law_one_application_per_burst(rest);
        law_streams_concatenate(WorkerView::Idle, burst(groups[0]), bursts(rest));
        assert(groups.map_values(each) =~= seq![each(groups[0])] + rest.map_values(each));
    }
}

/// Updates that follow each other within the settle window collapse to one application, of the
/// last volume.
pub proof fn law_rapid_updates_collapse(updates: Seq<Update>)
    requires
        updates.len() > 0,
        forall|i: int|
            0 <= i < updates.len() - 1 ==> #[trigger] gap(updates, i) < SETTLE_WINDOW,
    ensures
        applied(WorkerView::Idle, timed_events(updates)) == seq![collapsed(updates)],
        after(WorkerView::Idle, timed_events(updates)) == WorkerView::Idle,
{
    lemma_rapid_events(updates);
    law_burst_collapses(updates);
}

proof fn lemma_rapid_events(updates: Seq<Update>)
    requires
        updates.len() > 0,
        forall|i: int|
            0 <= i < updates.len() - 1 ==> #[trigger] gap(updates, i) < SETTLE_WINDOW,
    ensures
        timed_events(updates) == burst(updates),
    decreases updates.len(),
{
    let rest = updates.drop_first();
    if rest.len() == 0 {
        assert(timed_events(rest) =~= Seq::empty());
        assert(timed_events(updates) =~= burst(updates));
    } else {
        assert(gap(updates, 0) < SETTLE_WINDOW);
        assert forall|i: int| 0 <= i < rest.len() - 1 implies #[trigger] gap(rest, i)
            < SETTLE_WINDOW by {
            assert(gap(rest, i) == gap(updates, i + 1));
        }
        lemma_rapid_events(rest);
        assert(timed_events(updates) =~= burst(updates));
    }
}

/// Updates that are apart by the settle window or more are each applied once, in order.
pub proof fn law_spread_updates_each_apply(updates: Seq<Update>)
    requires
        forall|i: int|
            0 <= i < updates.len() - 1 ==> #[trigger] gap(updates, i) >= SETTLE_WINDOW,
    ensures
        applied(WorkerView::Idle, timed_events(updates)) == updates.map_values(
            |update: Update| update.application(),
        ),
        after(WorkerView::Idle, timed_events(updates)) == WorkerView::Idle,
    decreases updates.len(),
{
    let each = |update: Update| update.application();
    if updates.len() > 0 {
        let rest = updates.drop_first();
        if rest.len() > 0 {
            assert(gap(updates, 0) >= SETTLE_WINDOW);
        }
        assert forall|i: int| 0 <= i < rest.len() - 1 implies #[trigger] gap(rest, i)
            >= SETTLE_WINDOW by {
            assert(gap(rest, i) == gap(updates, i + 1));
        }
        let alone = seq![updates[0]];
        assert(burst(alone) =~= seq![updates[0].arrival(), EventView::Quiet]);
        law_burst_collapses(alone);
        law_spread_updates_each_apply(rest);
        law_streams_concatenate(WorkerView::Idle, burst(alone), timed_events(rest));
        assert(updates.map_values(each) =~= seq![each(updates[0])] + rest.map_values(each));
    }
}

/// The time from the last update of group `i` to the first one of the next group.
pub open spec fn pause(groups: Seq<Seq<Update>>, i: int) -> int {
    groups[i + 1][0].at - groups[i].last().at
}

/// Whether the groups are as long as they can be when updates belong together that follow each
/// other within the settle window.
pub open spec fn maximal_runs(groups: Seq<Seq<Update>>) -> bool {
    &&& forall|i: int| 0 <= i < groups.len() ==> (#[trigger] groups[i]).len() > 0
    &&& forall|i: int, j: int|
        0 <= i < groups.len() && 0 <= j < groups[i].len() - 1 ==> #[trigger] gap(groups[i], j)
            < SETTLE_WINDOW
    &&& forall|i: int| 0 <= i < groups.len() - 1 ==> #[trigger] pause(groups, i) >= SETTLE_WINDOW
}

/// The updates cut after each one that the settle window passes after.
pub open spec fn runs(updates: Seq<Update>) -> Seq<Seq<Update>>
    decreases updates.len(),
{
    if updates.len() == 0 {
        Seq::empty()
    } else {
        let rest = runs(updates.drop_first());
        if quiet_after(updates, 0) {
            seq![seq![updates[0]]] + rest
        } else {
            seq![seq![updates[0]] + rest[0]] + rest.drop_first()
        }
    }
}

/// Any timed updates fall into maximal runs.
pub proof fn law_updates_fall_into_runs(updates: Seq<Update>)
    ensures
        maximal_runs(runs(updates)),
        runs(updates).flatten() == updates,
    decreases updates.len(),
{
    let groups = runs(updates);
    if updates.len() == 0 {
        assert(groups.flatten() =~= updates);
    } else {
        let first = updates[0];
        let later = updates.drop_first();
        let rest = runs(later);
        law_updates_fall_into_runs(later);
        if later.len() > 0 {
            assert(rest.len() > 0);
            assert(rest.flatten() == rest[0] + rest.drop_first().flatten());
            assert(rest[0].len() > 0);
            assert(rest[0][0] == later[0]);
        }
        if quiet_after(updates, 0) {
            assert(groups.drop_first() =~= rest);
            assert forall|i: int| 0 <= i < groups.len() implies (#[trigger] groups[i]).len()
                > 0 by {
                if i > 0 {
                    assert(groups[i] == rest[i - 1]);
                }
            }
            assert forall|i: int, j: int|
                0 <= i < groups.len() && 0 <= j < groups[i].len() - 1 implies #[trigger] gap(
                groups[i],
                j,
            ) < SETTLE_WINDOW by {
                assert(groups[i] == rest[i - 1]);
                assert(gap(rest[i - 1], j) < SETTLE_WINDOW);
            }
            assert forall|i: int| 0 <= i < groups.len() - 1 implies #[trigger] pause(groups, i)
                >= SETTLE_WINDOW by {
                if i == 0 {
                    assert(rest.len() > 0);
                    if later.len() > 0 {
                        assert(pause(groups, 0) == gap(updates, 0));
                    }
                } else {
                    assert(pause(groups, i) == pause(rest, i - 1));
                }
            }
        } else {
            assert(groups.drop_first() =~= rest.drop_first());
            let joined = seq![first] + rest[0];
            assert(groups[0] == joined);
            assert(groups.len() == rest.len());
            assert forall|i: int| 0 < i < groups.len() implies groups[i] == rest[i] by {}
            assert forall|i: int| 0 <= i < groups.len() implies (#[trigger] groups[i]).len()
                > 0 by {
                assert(rest[i].len() > 0);
            }
            assert forall|i: int, j: int|
                0 <= i < groups.len() && 0 <= j < groups[i].len() - 1 implies #[trigger] gap(
                groups[i],
                j,
            ) < SETTLE_WINDOW by {
                if i > 0 {
                    assert(gap(rest[i], j) < SETTLE_WINDOW);
                } else if j > 0 {
                    assert(gap(joined, j) == gap(rest[0], j - 1));
                } else {
                    assert(gap(joined, 0) == gap(updates, 0));
                }
            }
            assert forall|i: int| 0 <= i < groups.len() - 1 implies #[trigger] pause(groups, i)
                >= SETTLE_WINDOW by {
                assert(groups[i].last() == rest[i].last());
                assert(pause(groups, i) == pause(rest, i));
            }
        }
        assert(groups.flatten() == groups[0] + groups.drop_first().flatten());
        assert(groups.flatten() =~= seq![first] + later);
        assert(groups.flatten() =~= updates);
    }
}

/// The events of a run, followed by other updates after a pause, end in the quiet of that pause.
proof fn lemma_run_then_rest(run: Seq<Update>, rest: Seq<Update>)
    requires
        run.len() > 0,
        forall|i: int| 0 <= i < run.len() - 1 ==> #[trigger] gap(run, i) < SETTLE_WINDOW,
        rest.len() > 0 ==> rest[0].at - run.last().at >= SETTLE_WINDOW,
    ensures
        timed_events(run + rest) == burst(run) + timed_events(rest),
    decreases run.len(),
{
    let updates = run + rest;
    let later = run.drop_first();
    assert(updates.drop_first() =~= later + rest);
    if later.len() == 0 {
        assert(later + rest =~= rest);
        if rest.len() > 0 {
            assert(gap(updates, 0) == rest[0].at - run.last().at);
        }
        assert(burst(run) =~= seq![updates[0].arrival(), EventView::Quiet]);
    } else {
        assert(gap(updates, 0) == gap(run, 0));
        assert forall|i: int| 0 <= i < later.len() - 1 implies #[trigger] gap(later, i)
            < SETTLE_WINDOW by {
            assert(gap(later, i) == gap(run, i + 1));
        }
        lemma_run_then_rest(later, rest);
        assert(burst(run) =~= seq![updates[0].arrival()] + burst(later));
        assert(timed_events(updates) =~= burst(run) + timed_events(rest));
    }
}

/// The events of timed updates are those of their maximal runs, each left to settle.
proof fn lemma_events_of_runs(groups: Seq<Seq<Update>>)
    requires
        maximal_runs(groups),
    ensures
        timed_events(groups.flatten()) == bursts(groups),
    decreases groups.len(),
{
    if groups.len() > 0 {
        let run = groups[0];
        let rest = groups.drop_first();
        assert forall|i: int| 0 <= i < rest.len() implies (#[trigger] rest[i]).len() > 0 by {
            assert(rest[i] == groups[i + 1]);
        }
        assert forall|i: int, j: int|
            0 <= i < rest.len() && 0 <= j < rest[i].len() - 1 implies #[trigger] gap(rest[i], j)
            < SETTLE_WINDOW by {
            assert(gap(groups[i + 1], j) < SETTLE_WINDOW);
        }
        assert forall|i: int| 0 <= i < rest.len() - 1 implies #[trigger] pause(rest, i)
            >= SETTLE_WINDOW by {
            assert(pause(rest, i) == pause(groups, i + 1));
        }
        lemma_events_of_runs(rest);
        if rest.len() > 0 {
            assert(rest[0].len() > 0);
            assert(rest.flatten() == rest[0] + rest.drop_first().flatten());
            assert(rest.flatten()[0] == groups[1][0]);
            assert(pause(groups, 0) >= SETTLE_WINDOW);
        } else {
            assert(rest.flatten() =~= Seq::empty());
        }
        assert forall|j: int| 0 <= j < run.len() - 1 implies #[trigger] gap(run, j)
            < SETTLE_WINDOW by {
            assert(gap(groups[0], j) < SETTLE_WINDOW);
        }
        assert(groups.flatten() == run + rest.flatten());
        lemma_run_then_rest(run, rest.flatten());
    }
}

/// Any timed updates make exactly one application for each maximal run of them, in order: the last
/// volume of the run, on the device that it began with.
pub proof fn law_one_application_per_run(updates: Seq<Update>, groups: Seq<Seq<Update>>)
    requires
        maximal_runs(groups),
        groups.flatten() == updates,
    ensures
        applied(WorkerView::Idle, timed_events(updates)) == groups.map_values(
            |run: Seq<Update>| collapsed(run),
        ),
        after(WorkerView::Idle, timed_events(updates)) == WorkerView::Idle,
{
    lemma_events_of_runs(groups);
    law_one_application_per_burst(groups);
    assert(groups.map_values(|run: Seq<Update>| collapsed(run)) =~= groups.map_values(
        |updates: Seq<Update>| collapsed(updates),
    ));
}

/// The updates of a stream up to its end, with their devices and volumes.
pub open spec fn changes(events: Seq<EventView>) -> Seq<Application>
    decreases events.len(),
{
    if events.len() == 0 {
        Seq::empty()
    } else {
        match events[0] {
            EventView::Arrived { device, volume } => seq![(device, volume)] + changes(
                events.drop_first(),
            ),
            EventView::Quiet => changes(events.drop_first()),
            EventView::Closed => Seq::empty(),
        }
    }
}

/// The updates of a stream, after those in `begun`, cut wherever it goes quiet and where it ends.
/// What is left at the last event is not among the groups.
pub open spec fn groups(begun: Seq<Application>, events: Seq<EventView>) -> Seq<Seq<Application>>
    decreases events.len(),
{
    if events.len() == 0 {
        Seq::empty()
    } else {
        let rest = events.drop_first();
        let complete = if begun.len() == 0 {
            Seq::empty()
        } else {
            seq![begun]
        };
        match events[0] {
            EventView::Arrived { device, volume } => groups(begun.push((device, volume)), rest),
            EventView::Quiet => complete + groups(Seq::empty(), rest),
            EventView::Closed => complete,
        }
    }
}

/// The updates of a stream, after those in `begun`, that nothing quiet has followed yet.
pub open spec fn left_over(begun: Seq<Application>, events: Seq<EventView>) -> Seq<Application>
    decreases events.len(),
{
    if events.len() == 0 {
        begun
    } else {
        match events[0] {
            EventView::Arrived { device, volume } => left_over(
                begun.push((device, volume)),
                events.drop_first(),
            ),
            EventView::Quiet => left_over(Seq::empty(), events.drop_first()),
            EventView::Closed => Seq::empty(),
        }
    }
}

/// The first device and the last volume of consecutive updates.
pub open spec fn joined(changes: Seq<Application>) -> Application {
    (changes[0].0, changes.last().1)
}

/// Over any stream of events the applications stand for consecutive groups of the updates, one for
/// each group and in order: its last volume, on the device of its first update. No group is
/// empty, and together with the updates that nothing quiet has followed yet they are all the
/// updates.
pub proof fn law_applications_are_consecutive_groups(events: Seq<EventView>)
    ensures
        applied(WorkerView::Idle, events) == groups(Seq::empty(), events).map_values(
            |group: Seq<Application>| joined(group),
        ),
        forall|i: int|
            0 <= i < groups(Seq::empty(), events).len() ==> (#[trigger] groups(
                Seq::empty(),
                events,
            )[i]).len() > 0,
        groups(Seq::empty(), events).flatten() + left_over(Seq::empty(), events) == changes(events),
{
    lemma_groups(Seq::empty(), events);
    assert(Seq::<Application>::empty() + changes(events) =~= changes(events));
}

/// The worker in the middle of a burst that consists of `begun` so far.
spec fn amid(begun: Seq<Application>) -> WorkerView {
    if begun.len() == 0 {
        WorkerView::Idle
    } else {
        WorkerView::Settling { device: joined(begun).0, latest: joined(begun).1 }
    }
}

proof fn lemma_groups(begun: Seq<Application>, events: Seq<EventView>)
    ensures
        applied(amid(begun), events) == groups(begun, events).map_values(
            |group: Seq<Application>| joined(group),
        ),
        forall|i: int|
            0 <= i < groups(begun, events).len() ==> (#[trigger] groups(begun, events)[i]).len()
                > 0,
        groups(begun, events).flatten() + left_over(begun, events) == begun + changes(events),
    decreases events.len(),
{
    let each = |group: Seq<Application>| joined(group);
    let whole = groups(begun, events);
    if events.len() == 0 {
        assert(whole.flatten() =~= Seq::empty());
        assert(whole.flatten() + left_over(begun, events) =~= begun + changes(events));
    } else {
        let rest = events.drop_first();
        match events[0] {
            EventView::Arrived { device, volume } => {
                let more = begun.push((device, volume));
                lemma_groups(more, rest);
                assert(amid(begun).step(events[0]).0 == amid(more));
                assert(more + changes(rest) =~= begun + changes(events));
            },
            EventView::Quiet => {
                lemma_groups(Seq::empty(), rest);
                let tail = groups(Seq::empty(), rest);
                if begun.len() == 0 {
                    assert(whole =~= tail);
                    assert(begun =~= Seq::empty());
                } else {
                    assert(whole.drop_first() =~= tail);
                    assert(whole.flatten() == begun + tail.flatten());
                    assert(applied(amid(begun), events) =~= whole.map_values(each));
                    assert forall|i: int| 0 <= i < whole.len() implies (#[trigger] whole[i]).len()
                        > 0 by {
                        if i > 0 {
                            assert(whole[i] == tail[i - 1]);
                        }
                    }
                }
                assert(whole.flatten() + left_over(begun, events) =~= begun + changes(events));
            },
            EventView::Closed => {
                lemma_stopped(rest);
                if begun.len() > 0 {
                    assert(whole.drop_first() =~= Seq::empty());
                    assert(whole.drop_first().flatten() =~= Seq::empty());
                    assert(whole.flatten() == begun + whole.drop_first().flatten());
                } else {
                    assert(whole.flatten() =~= Seq::empty());
                }
                assert(applied(amid(begun), events) =~= whole.map_values(each));
                assert(whole.flatten() + left_over(begun, events) =~= begun + changes(events));
            },
        }
    }
}

/// What is to be applied when a stream of updates ends: the burst that is going on, if one is.
pub open spec fn pending(worker: WorkerView) -> Seq<Application> {
    match worker {
        WorkerView::Settling { device, latest } => seq![(device, latest)],
        _ => Seq::empty(),
    }
}

/// When no update can come in any more, a burst that is going on is applied exactly once, and
/// nothing else ever is, whatever comes after.
pub proof fn law_closing_flushes_the_burst(worker: WorkerView, events: Seq<EventView>)
    ensures
        applied(worker, seq![EventView::Closed] + events) == pending(worker),
        applied(worker, seq![EventView::Closed] + events) == match worker {
            WorkerView::Settling { device, latest } => seq![(device, latest)],
            _ => Seq::<Application>::empty(),
        },
        after(worker, seq![EventView::Closed] + events) == WorkerView::Stopped,
{
    let stream = seq![EventView::Closed] + events;
    assert(stream.drop_first() =~= events);
    lemma_stopped(events);
    assert(applied(worker, stream) =~= pending(worker));
}

/// Nothing is applied after the end of the updates if no burst was going on.
pub proof fn law_nothing_after_close(worker: WorkerView, events: Seq<EventView>)
    requires
        worker !is Settling,
    ensures
        applied(worker, seq![EventView::Closed] + events) == Seq::<Application>::empty(),
        after(worker, seq![EventView::Closed] + events) == WorkerView::Stopped,
{
    law_closing_flushes_the_burst(worker, events);
}

proof fn lemma_stopped(events: Seq<EventView>)
    ensures
        applied(WorkerView::Stopped, events) == Seq::<Application>::empty(),
        after(WorkerView::Stopped, events) == WorkerView::Stopped,
    decreases events.len(),
{
    if events.len() > 0 {
        lemma_stopped(events.drop_first());
    }
}

/// Nothing is applied that was not asked for: an applied volume came in with an update, and so
/// did the device that it is applied to.
pub proof fn law_only_updates_are_applied(events: Seq<EventView>, n: int)
    requires
        0 <= n < applied(WorkerView::Idle, events).len(),
    ensures
        exists|i: int|
            0 <= i < events.len() && (#[trigger] events[i] matches EventView::Arrived {
                volume,
                ..
            } && volume == applied(WorkerView::Idle, events)[n].1),
        exists|i: int|
            0 <= i < events.len() && (#[trigger] events[i] matches EventView::Arrived {
                device,
                ..
            } && device == applied(WorkerView::Idle, events)[n].0),
{
    lemma_only_updates_are_applied(WorkerView::Idle, events, n);
}

/// Whether some update of the stream carries this volume.
spec fn carries_volume(events: Seq<EventView>, volume: u8) -> bool {
    exists|i: int|
        0 <= i < events.len() && (#[trigger] events[i] matches EventView::Arrived { volume: v, .. }
            && v == volume)
}

/// Whether some update of the stream is for this device.
spec fn carries_device(events: Seq<EventView>, device: Device) -> bool {
    exists|i: int|
        0 <= i < events.len() && (#[trigger] events[i] matches EventView::Arrived { device: d, .. }
            && d == device)
}

proof fn lemma_only_updates_are_applied(worker: WorkerView, events: Seq<EventView>, n: int)
    requires
        0 <= n < applied(worker, events).len(),
    ensures
        carries_volume(events, applied(worker, events)[n].1) || (
        worker matches WorkerView::Settling { latest, .. } && latest == applied(
            worker,
            events,
        )[n].1),
        carries_device(events, applied(worker, events)[n].0) || (
        worker matches WorkerView::Settling { device, .. } && device == applied(
            worker,
            events,
        )[n].0),
    decreases events.len(),
{
    let rest = events.drop_first();
    let (next, action) = worker.step(events[0]);
    let m = if action is Apply {
        n - 1
    } else {
        n
    };
    if m >= 0 {
        assert(applied(worker, events)[n] == applied(next, rest)[m]);
        lemma_only_updates_are_applied(next, rest, m);
        let (device, volume) = applied(next, rest)[m];
        if carries_volume(rest, volume) {
            let i = choose|i: int|
                0 <= i < rest.len() && (#[trigger] rest[i] matches EventView::Arrived {
                    volume: v,
                    ..
                } && v == volume);
            assert(events[i + 1] == rest[i]);
        }
        if carries_device(rest, device) {
            let i = choose|i: int|
                0 <= i < rest.len() && (#[trigger] rest[i] matches EventView::Arrived {
                    device: d,
                    ..
                } && d == device);
            assert(events[i + 1] == rest[i]);
        }
    }
}

/// A worker asks for the wait that its state calls for. While a burst is pending it waits for no
/// longer than the settle window, so that silence is noticed; with nothing pending it waits for an
/// update for as long as it takes; and once stopped it wants nothing but its end. Applying a volume
/// is the only other thing that it asks for, and never while a burst is pending.
pub proof fn law_pending_burst_waits_for_quiet(worker: WorkerView, event: EventView)
    ensures
        worker.step(event).0 is Settling ==> worker.step(event).1 is AwaitQuiet,
        worker.step(event).0 is Idle ==> worker.step(event).1 is AwaitUpdate || worker.step(
            event,
        ).1 is Apply,
        worker.step(event).0 is Stopped ==> worker.step(event).1 is Stop || worker.step(
            event,
        ).1 is Apply,
{
}

/// What is applied, and when, if what the worker asks for is done: from the time `now` on, at which
/// it asks for `action`, `updates` come in at their times, and `steps` events and applications are
/// followed. A wait for quiet ends with the settle window unless an update comes in before.
pub open spec fn performed(
    worker: WorkerView,
    action: ActionView,
    now: nat,
    updates: Seq<Update>,
    steps: nat,
) -> Seq<(nat, Application)>
    decreases steps,
{
    if steps == 0 {
        Seq::empty()
    } else {
        let left = (steps - 1) as nat;
        let next_comes = updates.len() > 0 && (action is AwaitQuiet ==> updates[0].at < now
            + SETTLE_WINDOW);
        match action {
            ActionView::Stop => Seq::empty(),
            ActionView::Apply { device, volume } => seq![(now, (device, volume))] + performed(
                worker,
                ActionView::AwaitUpdate,
                now,
                updates,
                left,
            ),
            _ => if next_comes {
                let (next, wanted) = worker.step(updates[0].arrival());
                let at = if updates[0].at >= now {
                    updates[0].at
                } else {
                    now
                };
                performed(next, wanted, at, updates.drop_first(), left)
            } else if action is AwaitQuiet {
                let (next, wanted) = worker.step(EventView::Quiet);
                performed(next, wanted, now + SETTLE_WINDOW as nat, updates, left)
            } else {
                Seq::empty()
            },
        }
    }
}

/// A pending burst takes in the updates that follow closely, and is applied when the settle window
/// after the last of them is over.
proof fn lemma_pending_is_performed(
    device: Device,
    latest: u8,
    now: nat,
    more: Seq<Update>,
    rest: Seq<Update>,
    steps: nat,
)
    requires
        steps >= more.len() + 2,
        more.len() > 0 ==> now <= more[0].at < now + SETTLE_WINDOW,
        forall|i: int| 0 <= i < more.len() - 1 ==> 0 <= #[trigger] gap(more, i) < SETTLE_WINDOW,
        rest.len() > 0 ==> rest[0].at >= SETTLE_WINDOW + if more.len() == 0 {
            now
        } else {
            more.last().at
        },
    ensures
        ({
            let end = SETTLE_WINDOW as nat + if more.len() == 0 {
                now
            } else {
                more.last().at
            };
            let volume = if more.len() == 0 {
                latest
            } else {
                more.last().volume
            };
            performed(
                WorkerView::Settling { device, latest },
                ActionView::AwaitQuiet,
                now,
                more + rest,
                steps,
            ) == seq![(end, (device, volume))] + performed(
                WorkerView::Idle,
                ActionView::AwaitUpdate,
                end,
                rest,
                (steps - more.len() - 2) as nat,
            )
        }),
    decreases more.len(),
{
    let updates = more + rest;
    let worker = WorkerView::Settling { device, latest };
    if more.len() == 0 {
        assert(updates =~= rest);
        let end = now + SETTLE_WINDOW as nat;
        let apply = ActionView::Apply { device, volume: latest };
        assert(performed(worker, ActionView::AwaitQuiet, now, updates, steps) == performed(
            WorkerView::Idle,
            apply,
            end,
            updates,
            (steps - 1) as nat,
        ));
        assert(performed(WorkerView::Idle, apply, end, updates, (steps - 1) as nat) == seq![
            (end, (device, latest)),
        ] + performed(
            WorkerView::Idle,
            ActionView::AwaitUpdate,
            end,
            updates,
            (steps - 2) as nat,
        ));
    } else {
        let later = more.drop_first();
        assert(updates.drop_first() =~= later + rest);
        assert forall|i: int| 0 <= i < later.len() - 1 implies 0 <= #[trigger] gap(later, i)
            < SETTLE_WINDOW by {
            assert(gap(later, i) == gap(more, i + 1));
        }
        if later.len() > 0 {
            assert(0 <= gap(more, 0) < SETTLE_WINDOW);
            assert(later.last() == more.last());
        }
        lemma_pending_is_performed(
            device,
            more[0].volume,
            more[0].at,
            later,
            rest,
            (steps - 1) as nat,
        );
    }
}

/// The worker and whoever does what it asks for, taken together, apply one volume for each maximal
/// run of updates: the settle window after the last update of the run, the volume of that update is
/// set on the device that the run began with, and nothing else is ever applied. The updates are
/// taken to come in the order of their times, and each takes at most three steps.
pub proof fn law_runs_are_applied_after_the_window(
    now: nat,
    updates: Seq<Update>,
    groups: Seq<Seq<Update>>,
    steps: nat,
)
    requires
        maximal_runs(groups),
        groups.flatten() == updates,
        forall|i: int| 0 <= i < updates.len() - 1 ==> #[trigger] gap(updates, i) >= 0,
        updates.len() > 0 ==> now <= updates[0].at,
        steps >= 3 * updates.len(),
    ensures
        performed(WorkerView::Idle, ActionView::AwaitUpdate, now, updates, steps)
            == groups.map_values(
            |run: Seq<Update>|
                (
                    run.last().at + SETTLE_WINDOW as nat,
                    (run[0].device, run.last().volume),
                ),
        ),
    decreases groups.len(),
{
    let each = |run: Seq<Update>|
        (run.last().at + SETTLE_WINDOW as nat, (run[0].device, run.last().volume));
    if groups.len() == 0 {
        assert(groups.map_values(each) =~= Seq::empty());
    } else {
        let run = groups[0];
        let tail = groups.drop_first();
        let rest = tail.flatten();
        let more = run.drop_first();
        assert(updates == run + rest);
        assert(run.len() > 0);
        lemma_tail_runs(groups);
        assert forall|i: int| 0 <= i < more.len() - 1 implies 0 <= #[trigger] gap(more, i)
            < SETTLE_WINDOW by {
            assert(gap(more, i) == gap(groups[0], i + 1));
            assert(gap(updates, i + 1) == gap(more, i));
        }
        if more.len() > 0 {
            assert(gap(groups[0], 0) < SETTLE_WINDOW);
            assert(gap(updates, 0) == gap(groups[0], 0));
            assert(more.last() == run.last());
        }
        if tail.len() > 0 {
            assert(tail[0].len() > 0);
            assert(tail.flatten() == tail[0] + tail.drop_first().flatten());
            assert(rest[0] == groups[1][0]);
            assert(pause(groups, 0) >= SETTLE_WINDOW);
        } else {
            assert(rest =~= Seq::empty());
        }
        assert forall|i: int| 0 <= i < rest.len() - 1 implies #[trigger] gap(rest, i) >= 0 by {
            assert(gap(rest, i) == gap(updates, run.len() + i));
        }
        let end = run.last().at + SETTLE_WINDOW as nat;
        assert(updates.drop_first() =~= more + rest);
        lemma_pending_is_performed(
            run[0].device,
            run[0].volume,
            run[0].at,
            more,
            rest,
            (steps - 1) as nat,
        );
        law_runs_are_applied_after_the_window(
            end,
            rest,
            tail,
            (steps - 1 - more.len() - 2) as nat,
        );
        assert(groups.map_values(each) =~= seq![each(run)] + tail.map_values(each));
    }
}

/// The later ones of maximal runs are maximal runs.
proof fn lemma_tail_runs(groups: Seq<Seq<Update>>)
    requires
        maximal_runs(groups),
        groups.len() > 0,
    ensures
        maximal_runs(groups.drop_first()),
{
    let rest = groups.drop_first();
    assert forall|i: int| 0 <= i < rest.len() implies (#[trigger] rest[i]).len() > 0 by {
        assert(rest[i] == groups[i + 1]);
    }
    assert forall|i: int, j: int|
        0 <= i < rest.len() && 0 <= j < rest[i].len() - 1 implies #[trigger] gap(rest[i], j)
        < SETTLE_WINDOW by {
        assert(gap(groups[i + 1], j) < SETTLE_WINDOW);
    }
    assert forall|i: int| 0 <= i < rest.len() - 1 implies #[trigger] pause(rest, i)
        >= SETTLE_WINDOW by {
        assert(pause(rest, i) == pause(groups, i + 1));
    }
}

} // verus!
