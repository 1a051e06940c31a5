//! What the events of an install run show: the two progress bars, and
//! whether the controls can be used.

use crate::asset::AssetView;
use crate::progress::{EventView, ProgressEvent};
use crate::install::ReportView;
use crate::protocol::{conforms, events_of, idle, installing_count, lemma_run_conforms, run_after};
use vstd::prelude::*;

verus! {

/// The look of the bar that counts the bundles.
#[derive(Clone, Copy, Debug, PartialEq, Eq, Structural)]
pub enum BarState {
    Normal,
    Error,
}

/// What is shown of a run.
#[derive(Clone, Copy, Debug, PartialEq, Eq, Structural)]
pub struct ProgressView {
    /// How far the bar of the download at hand is filled.
    pub download_pos: u32,
    /// Where the bar of the download at hand ends.
    pub download_end: u32,
    /// How far the bar of the batch is filled: a step for every bundle.
    pub main_pos: u32,
    /// Where the bar of the batch ends.
    pub main_end: u32,
    /// Whether the bar of the batch shows a failure.
    pub main_state: BarState,
    /// Whether the checkboxes and buttons can be used.
    pub controls_enabled: bool,
}

/// The number of bundles as a bar can hold it.
pub open spec fn bar_end(bundles: nat) -> u32 {
    if bundles > u32::MAX {
        u32::MAX
    } else {
        bundles as u32
    }
}

/// What is shown when a run over `bundles` bundles starts: empty bars, and
/// controls that cannot be used.
pub open spec fn started(bundles: nat) -> ProgressView {
    ProgressView {
        download_pos: 0,
        download_end: 0,
        main_pos: 0,
        main_end: bar_end(bundles),
        main_state: BarState::Normal,
        controls_enabled: false,
    }
}

/// What is shown after an event. A download fills its bar up to the size
/// that was given for it, and no further. A bundle that is being installed
/// has its download bar full and is a step on the bar of the batch. An
/// error marks the bar of the batch, the end fills both bars, and either
/// gives the controls back.
pub open spec fn shown_after(view: ProgressView, event: EventView) -> ProgressView {
    match event {
        EventView::Downloading { name, done, total } => ProgressView {
            download_pos: if done <= total {
                done
            } else {
                total
            },
            download_end: total,
            ..view
        },
        EventView::Installing(_) => ProgressView {
            download_pos: view.download_end,
            main_pos: if view.main_pos < view.main_end {
                (view.main_pos + 1) as u32
            } else {
                view.main_end
            },
            ..view
        },
        EventView::Error(_) => ProgressView {
            main_state: BarState::Error,
            controls_enabled: true,
            ..view
        },
        EventView::Finished => ProgressView {
            download_pos: view.download_end,
            main_pos: view.main_end,
            controls_enabled: true,
            ..view
        },
    }
}

/// What is shown after a sequence of events.
pub open spec fn shown_after_all(view: ProgressView, events: Seq<EventView>) -> ProgressView
    decreases events.len(),
{
    if events.len() == 0 {
        view
    } else {
        shown_after(shown_after_all(view, events.drop_last()), events.last())
    }
}

/// Events may be taken in any portions: what is shown in the end is the
/// same whether they are taken at once or one part after the other.
pub proof fn lemma_shown_in_portions(
    view: ProgressView,
    first: Seq<EventView>,
    second: Seq<EventView>,
)
    ensures
        shown_after_all(view, first + second) == shown_after_all(
            shown_after_all(view, first),
            second,
        ),
    decreases second.len(),
{
    if second.len() == 0 {
        assert(first + second =~= first);
    } else {
        assert((first + second).drop_last() =~= first + second.drop_last());
        lemma_shown_in_portions(view, first, second.drop_last());
    }
}

impl ProgressView {
    /// What is shown when a run over `bundles` bundles starts.
    pub fn start(bundles: usize) -> (view: ProgressView)
        ensures
            view == started(bundles as nat),
    {
        let main_end: u32 = if bundles > u32::MAX as usize {
            u32::MAX
        } else {
            bundles as u32
        };
        ProgressView {
            download_pos: 0,
            download_end: 0,
            main_pos: 0,
            main_end,
            main_state: BarState::Normal,
            controls_enabled: false,
        }
    }

    /// Takes an event of the run into what is shown.
    pub fn apply(&mut self, event: &ProgressEvent)
        ensures
            *final(self) == shown_after(*old(self), event@),
    {
        match event {
            ProgressEvent::Downloading { done, total, .. } => {
                let done: u32 = *done;
                let total: u32 = *total;
                self.download_end = total;
                self.download_pos = if done <= total {
                    done
                } else {
                    total
                };
            },
            ProgressEvent::Installing(_) => {
                self.download_pos = self.download_end;
                if self.main_pos < self.main_end {
                    self.main_pos = self.main_pos + 1;
                } else {
                    self.main_pos = self.main_end;
                }
            },
            ProgressEvent::Error(_) => {
                self.main_state = BarState::Error;
                self.controls_enabled = true;
            },
            ProgressEvent::Finished => {
                self.download_pos = self.download_end;
                self.main_pos = self.main_end;
                self.controls_enabled = true;
            },
        }
    }
}

/// Of events that keep to the order, no more say that a bundle is being
/// installed than the batch has bundles.
pub proof fn lemma_installing_count_bounded(batch: Seq<AssetView>, events: Seq<EventView>)
    requires
        conforms(batch, events),
    ensures
        installing_count(events) <= batch.len(),
    decreases events.len(),
{
    if events.len() > 0 {
        lemma_installing_count_bounded(batch, events.drop_last());
    }
}

/// While the events keep to the order of a run, what is shown keeps up
/// with it. The controls can be used again exactly when the run is over,
/// and the bar of the batch shows a failure exactly when the run ended in
/// an error. Until the end the bar of the batch counts the bundles that
/// were announced as being installed; at the end it is full. No bar is
/// filled beyond its end.
pub proof fn lemma_view_follows_run(batch: Seq<AssetView>, events: Seq<EventView>)
    requires
        conforms(batch, events),
        batch.len() <= u32::MAX,
    ensures
        ({
            let view = shown_after_all(started(batch.len()), events);
            let over = events.len() > 0 && events.last().is_last();
            &&& view.controls_enabled == over
            &&& (view.main_state == BarState::Error) == (events.len() > 0 && events.last() is Error)
            &&& view.main_end == batch.len()
            &&& view.main_pos == if events.len() > 0 && events.last() is Finished {
                batch.len()
            } else {
                installing_count(events)
            }
            &&& view.download_pos <= view.download_end
        }),
    decreases events.len(),
{
    if events.len() > 0 {
        let earlier = events.drop_last();
        lemma_view_follows_run(batch, earlier);
        lemma_installing_count_bounded(batch, events);
        lemma_installing_count_bounded(batch, earlier);
    }
}

/// Whatever the worker reports, the controls cannot be used while the run
/// is under way, and can be used again as soon as it is over.
pub proof fn lemma_controls_follow_run(batch: Seq<AssetView>, reports: Seq<ReportView>)
    requires
        batch.len() <= u32::MAX,
    ensures
        shown_after_all(started(batch.len()), events_of(idle(batch), reports)).controls_enabled
            == run_after(idle(batch), reports).is_over(),
{
    lemma_run_conforms(batch, reports);
    lemma_view_follows_run(batch, events_of(idle(batch), reports));
}

} // verus!
