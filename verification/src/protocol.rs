//! The order of the events of an install run, and the proof that a run
//! keeps to it.

use crate::asset::{shown_name, AssetView};
use crate::install::{count_after, downloading, step, turn_to, Phase, ReportView, RunView};
use crate::progress::EventView;
use vstd::prelude::*;

verus! {

/// The run after a sequence of reports.
pub open spec fn run_after(run: RunView, reports: Seq<ReportView>) -> RunView
    decreases reports.len(),
{
    if reports.len() == 0 {
        run
    } else {
        step(run_after(run, reports.drop_last()), reports.last()).0
    }
}

/// The events that a sequence of reports brings, in order.
pub open spec fn events_of(run: RunView, reports: Seq<ReportView>) -> Seq<EventView>
    decreases reports.len(),
{
    if reports.len() == 0 {
        Seq::empty()
    } else {
        match step(run_after(run, reports.drop_last()), reports.last()).1 {
            Some(event) => events_of(run, reports.drop_last()).push(event),
            None => events_of(run, reports.drop_last()),
        }
    }
}

/// How many of the events say that a bundle is being installed.
pub open spec fn installing_count(events: Seq<EventView>) -> nat
    decreases events.len(),
{
    if events.len() == 0 {
        0
    } else if events.last() is Installing {
        installing_count(events.drop_last()) + 1
    } else {
        installing_count(events.drop_last())
    }
}

/// Whether `event` may come after the events `before`, in a run over
/// `batch`. Nothing comes after an error or the end. The bundle at hand is
/// the one behind those that were announced as being installed: a download
/// event names it and gives its size, starts at zero and never falls; the
/// bundle is announced as being installed after a download event. An error
/// may end a run that has begun. The end comes when every bundle was
/// announced.
pub open spec fn may_follow(batch: Seq<AssetView>, before: Seq<EventView>, event: EventView) -> bool {
    let at_hand = installing_count(before) as int;
    &&& before.len() > 0 ==> !before.last().is_last()
    &&& match event {
        EventView::Downloading { name, done, total } => {
            &&& at_hand < batch.len()
            &&& name == shown_name(batch[at_hand].name)
            &&& total == batch[at_hand].size
            &&& if before.len() > 0 {
                match before.last() {
                    EventView::Downloading { done: earlier, .. } => earlier <= done,
                    _ => done == 0,
                }
            } else {
                done == 0
            }
        },
        EventView::Installing(name) => {
            &&& before.len() > 0
            &&& before.last() is Downloading
            &&& at_hand < batch.len()
            &&& name == shown_name(batch[at_hand].name)
        },
        EventView::Error(_) => before.len() > 0,
        EventView::Finished => {
            &&& at_hand == batch.len()
            &&& before.len() > 0 ==> before.last() is Installing
        },
    }
}

/// Whether a sequence of events keeps to the order of a run over `batch`:
/// each of them may follow those before it.
pub open spec fn conforms(batch: Seq<AssetView>, events: Seq<EventView>) -> bool
    decreases events.len(),
{
    events.len() == 0 || (conforms(batch, events.drop_last()) && may_follow(
        batch,
        events.drop_last(),
        events.last(),
    ))
}

/// Whether the events are those of a run that has come to `run`: they keep
/// to the order, and the last of them tells the phase.
pub open spec fn tells(run: RunView, events: Seq<EventView>) -> bool {
    &&& run.wf()
    &&& conforms(run.batch, events)
    &&& match run.phase {
        Phase::Idle => events.len() == 0,
        Phase::Downloading(index) => {
            &&& events.len() > 0
            &&& events.last() == downloading(run.batch[index as int], run.received)
            &&& installing_count(events) == index
        },
        Phase::Installing(index) => {
            &&& events.len() > 0
            &&& events.last() == EventView::Installing(shown_name(run.batch[index as int].name))
            &&& installing_count(events) == index + 1
        },
        Phase::Done => events.len() > 0 && events.last() is Finished,
        Phase::Error => events.len() > 0 && events.last() is Error,
    }
}

/// A run before its start.
pub open spec fn idle(batch: Seq<AssetView>) -> RunView {
    RunView { batch, phase: Phase::Idle, received: 0 }
}

/// The place of a phase in the course of a run over `len` bundles.
pub open spec fn rank(phase: Phase, len: nat) -> nat {
    match phase {
        Phase::Idle => 0,
        Phase::Downloading(index) => 2 * index as nat + 1,
        Phase::Installing(index) => 2 * index as nat + 2,
        Phase::Error => 2 * len + 1,
        Phase::Done => 2 * len + 1,
    }
}

/// A step keeps the batch and leaves the run well formed.
pub proof fn lemma_step_wf(run: RunView, report: ReportView)
    requires
        run.wf(),
    ensures
        step(run, report).0.wf(),
        step(run, report).0.batch == run.batch,
{
}

/// A run moves forward only: a step leaves the phase as it is or takes the
/// run to a later one, and never back to a bundle that it has left.
pub proof fn lemma_step_forward(run: RunView, report: ReportView)
    requires
        run.wf(),
    ensures
        rank(step(run, report).0.phase, run.batch.len()) >= rank(run.phase, run.batch.len()),
        rank(step(run, report).0.phase, run.batch.len()) == rank(run.phase, run.batch.len())
            ==> step(run, report).0.phase == run.phase,
{
}

/// A run that is over stays as it is, and no report brings an event.
pub proof fn lemma_over_is_final(run: RunView, reports: Seq<ReportView>)
    requires
        run.is_over(),
    ensures
        run_after(run, reports) == run,
        events_of(run, reports) == Seq::<EventView>::empty(),
    decreases reports.len(),
{
    if reports.len() > 0 {
        lemma_over_is_final(run, reports.drop_last());
    }
}

/// Reports may be taken in any portions: the run comes to the same place,
/// and the events are the same, whether a sequence of reports is taken at
/// once or one part after the other.
pub proof fn lemma_run_in_portions(run: RunView, first: Seq<ReportView>, second: Seq<ReportView>)
    ensures
        run_after(run, first + second) == run_after(run_after(run, first), second),
        events_of(run, first + second) == events_of(run, first) + events_of(
            run_after(run, first),
            second,
        ),
    decreases second.len(),
{
    if second.len() == 0 {
        assert(first + second =~= first);
        assert(events_of(run, first) + Seq::<EventView>::empty() =~= events_of(run, first));
    } else {
        let all = first + second;
        assert(all.drop_last() =~= first + second.drop_last());
        assert(all.last() == second.last());
        lemma_run_in_portions(run, first, second.drop_last());
        let middle = run_after(run, first);
        let earlier = events_of(middle, second.drop_last());
        match step(run_after(middle, second.drop_last()), second.last()).1 {
            Some(event) => {
                assert(events_of(run, first) + earlier.push(event) =~= (events_of(run, first)
                    + earlier).push(event));
            },
            None => {},
        }
    }
}

/// One step keeps the events in line with the run.
pub proof fn lemma_step_tells(run: RunView, events: Seq<EventView>, report: ReportView)
    requires
        tells(run, events),
    ensures
        match step(run, report).1 {
            Some(event) => tells(step(run, report).0, events.push(event)),
            None => step(run, report).0 == run,
        },
{
    match step(run, report).1 {
        Some(event) => {
            let after = events.push(event);
            assert(after.drop_last() =~= events);
            assert(after.last() == event);
        },
        None => {},
    }
}

/// Whatever the worker reports, the events of a run keep to the order, and
/// the last of them tells where the run stands.
pub proof fn lemma_run_conforms(batch: Seq<AssetView>, reports: Seq<ReportView>)
    requires
        batch.len() <= usize::MAX,
    ensures
        tells(run_after(idle(batch), reports), events_of(idle(batch), reports)),
        run_after(idle(batch), reports).batch == batch,
    decreases reports.len(),
{
    if reports.len() > 0 {
        let earlier = reports.drop_last();
        lemma_run_conforms(batch, earlier);
        lemma_step_tells(
            run_after(idle(batch), earlier),
            events_of(idle(batch), earlier),
            reports.last(),
        );
    }
}

/// In events that keep to the order, an error or the end stands only at the
/// last place: each comes at most once, and nothing follows it.
pub proof fn lemma_last_event_is_last(batch: Seq<AssetView>, events: Seq<EventView>, i: int)
    requires
        conforms(batch, events),
        0 <= i < events.len() - 1,
    ensures
        !events[i].is_last(),
    decreases events.len(),
{
    let earlier = events.drop_last();
    if i < earlier.len() - 1 {
        lemma_last_event_is_last(batch, earlier, i);
    } else {
        assert(earlier.last() == events[i]);
    }
}

/// The end of a run is told once every bundle of the batch was announced as
/// being installed, and only then.
pub proof fn lemma_finished_after_all(batch: Seq<AssetView>, events: Seq<EventView>)
    requires
        conforms(batch, events),
        events.len() > 0,
        events.last() is Finished,
    ensures
        installing_count(events) == batch.len(),
{
}

/// The bytes of all chunks together.
pub open spec fn total_bytes(chunks: Seq<usize>) -> nat
    decreases chunks.len(),
{
    if chunks.len() == 0 {
        0
    } else {
        total_bytes(chunks.drop_last()) + chunks.last() as nat
    }
}

/// A byte count as an event gives it: held at the largest `u32`.
pub open spec fn capped(bytes: int) -> u32 {
    if bytes > u32::MAX {
        u32::MAX
    } else {
        bytes as u32
    }
}

/// The count after the first `upto` chunks of a download that began at
/// `start`.
pub open spec fn counted(start: u32, chunks: Seq<usize>, upto: int) -> u32 {
    capped(start + total_bytes(chunks.take(upto)))
}

/// The reports of a download that arrives in these chunks.
pub open spec fn chunk_reports(chunks: Seq<usize>) -> Seq<ReportView> {
    chunks.map_values(|count: usize| ReportView::Received(count))
}

/// The bytes of the first chunks are no more than those of the first and
/// some further ones.
pub proof fn lemma_total_bytes_grows(chunks: Seq<usize>, j: int, k: int)
    requires
        0 <= j <= k <= chunks.len(),
    ensures
        total_bytes(chunks.take(j)) <= total_bytes(chunks.take(k)),
    decreases k - j,
{
    if j < k {
        lemma_total_bytes_grows(chunks, j, k - 1);
        assert(chunks.take(k).drop_last() =~= chunks.take(k - 1));
    }
}

/// A download that arrives in chunks of any sizes brings one event for each
/// chunk. Each event gives the bytes that have arrived so far, held at the
/// largest `u32`: the counts never fall, and the last one is the size of
/// the whole download where that size fits. The run counts the same.
pub proof fn lemma_download_progress(run: RunView, chunks: Seq<usize>)
    requires
        run.wf(),
        run.phase is Downloading,
    ensures
        run_after(run, chunk_reports(chunks)) == (RunView {
            received: counted(run.received, chunks, chunks.len() as int),
            ..run
        }),
        events_of(run, chunk_reports(chunks)).len() == chunks.len(),
        forall|j: int|
            0 <= j < chunks.len() ==> #[trigger] events_of(run, chunk_reports(chunks))[j]
                == downloading(
                run.batch[run.phase->Downloading_0 as int],
                counted(run.received, chunks, j + 1),
            ),
        forall|j: int, k: int|
            0 <= j <= k <= chunks.len() ==> #[trigger] counted(run.received, chunks, j)
                <= #[trigger] counted(run.received, chunks, k),
        run.received + total_bytes(chunks) <= u32::MAX ==> counted(
            run.received,
            chunks,
            chunks.len() as int,
        ) == run.received + total_bytes(chunks),
    decreases chunks.len(),
{
    assert(chunks.take(chunks.len() as int) =~= chunks);
    assert forall|j: int, k: int| 0 <= j <= k <= chunks.len() implies #[trigger] counted(
        run.received,
        chunks,
        j,
    ) <= #[trigger] counted(run.received, chunks, k) by {
        lemma_total_bytes_grows(chunks, j, k);
    }
    if chunks.len() > 0 {
        let earlier = chunks.drop_last();
        lemma_download_progress(run, earlier);
        assert(chunk_reports(chunks).drop_last() =~= chunk_reports(earlier));
        assert(chunk_reports(chunks).last() == ReportView::Received(chunks.last()));
        let before = run_after(run, chunk_reports(earlier));
        assert(earlier.take(earlier.len() as int) =~= earlier);
        assert(count_after(before.received, chunks.last()) == capped(
            run.received + total_bytes(chunks),
        ));
        assert forall|j: int| 0 <= j < chunks.len() implies #[trigger] events_of(
            run,
            chunk_reports(chunks),
        )[j] == downloading(
            run.batch[run.phase->Downloading_0 as int],
            capped(run.received + total_bytes(chunks.take(j + 1))),
        ) by {
            if j < earlier.len() {
                assert(earlier.take(j + 1) =~= chunks.take(j + 1));
            } else {
                assert(chunks.take(j + 1) =~= chunks);
            }
        }
    }
}

/// A bundle that arrives whole and is installed: whatever the chunks of its
/// download, the run then turns to the next bundle, or is done after the
/// last one. Behind the events of the download come the event that
/// announces the installation and the event of that turn: the start of the
/// next download, or the end of the run.
pub proof fn lemma_bundle_installed(run: RunView, chunks: Seq<usize>)
    requires
        run.wf(),
        run.phase is Downloading,
    ensures
        ({
            let index = run.phase->Downloading_0 as int;
            let reports = chunk_reports(chunks) + seq![
                ReportView::Downloaded,
                ReportView::Installed,
            ];
            &&& run_after(run, reports) == turn_to(run.batch, index + 1).0
            &&& events_of(run, reports) == events_of(run, chunk_reports(chunks)) + seq![
                EventView::Installing(shown_name(run.batch[index].name)),
                turn_to(run.batch, index + 1).1.unwrap(),
            ]
        }),
{
    let tail = seq![ReportView::Downloaded, ReportView::Installed];
    lemma_download_progress(run, chunks);
    lemma_run_in_portions(run, chunk_reports(chunks), tail);
    let arrived = run_after(run, chunk_reports(chunks));
    assert(tail.drop_last() =~= seq![ReportView::Downloaded]);
    assert(tail.drop_last().drop_last() =~= Seq::<ReportView>::empty());
    reveal_with_fuel(run_after, 3);
    reveal_with_fuel(events_of, 3);
    let index = run.phase->Downloading_0 as int;
    assert(events_of(arrived, tail) =~= seq![
        EventView::Installing(shown_name(run.batch[index].name)),
        turn_to(run.batch, index + 1).1.unwrap(),
    ]);
}

/// A bundle whose download fails: whatever chunks arrived before, the run
/// ends in an error. Behind the events of the download comes the error with
/// its message, and no report brings anything more.
pub proof fn lemma_bundle_failed(
    run: RunView,
    chunks: Seq<usize>,
    message: Seq<char>,
    later: Seq<ReportView>,
)
    requires
        run.wf(),
        run.phase is Downloading,
    ensures
        ({
            let reports = chunk_reports(chunks) + seq![ReportView::Failed(message)] + later;
            &&& run_after(run, reports).phase == Phase::Error
            &&& events_of(run, reports) == events_of(run, chunk_reports(chunks)).push(
                EventView::Error(message),
            )
        }),
{
    let fail = seq![ReportView::Failed(message)];
    let until = chunk_reports(chunks) + fail;
    lemma_download_progress(run, chunks);
    lemma_run_in_portions(run, chunk_reports(chunks), fail);
    lemma_run_in_portions(run, until, later);
    let arrived = run_after(run, chunk_reports(chunks));
    assert(fail.drop_last() =~= Seq::<ReportView>::empty());
    reveal_with_fuel(run_after, 2);
    reveal_with_fuel(events_of, 2);
    let failed = run_after(arrived, fail);
    assert(failed.phase == Phase::Error);
    assert(events_of(arrived, fail) =~= seq![EventView::Error(message)]);
    lemma_over_is_final(failed, later);
    assert(run_after(run, until) == failed);
    assert(events_of(run, until) + Seq::<EventView>::empty() =~= events_of(
        run,
        chunk_reports(chunks),
    ).push(EventView::Error(message)));
}

} // verus!
