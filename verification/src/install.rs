//! An install run: the bundles of a batch, one after the other, each
//! downloaded and then installed, with an event for every step.

use crate::asset::{shown_name, views, AssetView, ReleaseAsset};
use crate::error::InstallError;
use crate::progress::{EventView, ProgressEvent};
use vstd::prelude::*;

verus! {

/// Where a run stands.
#[derive(Clone, Copy, Debug, PartialEq, Eq, Structural)]
pub enum Phase {
    /// Nothing has begun.
    Idle,
    /// The bundle at this place of the batch is being downloaded.
    Downloading(usize),
    /// The bundle at this place of the batch is being installed.
    Installing(usize),
    /// A step failed: the run is over.
    Error,
    /// Every bundle is installed: the run is over.
    Done,
}

/// What the worker reports of the work it did.
#[derive(Debug, PartialEq, Eq)]
pub enum Report {
    /// The run begins.
    Started,
    /// A read of the download returned this many bytes.
    Received(usize),
    /// The download has reached its end.
    Downloaded,
    /// The fonts of the bundle are in place.
    Installed,
    /// The download or the installation failed.
    Failed(InstallError),
}

/// A `Report`, with the message of the error in place of the error.
pub enum ReportView {
    Started,
    Received(usize),
    Downloaded,
    Installed,
    Failed(Seq<char>),
}

impl View for Report {
    type V = ReportView;

    open spec fn view(&self) -> ReportView {
        match self {
            Report::Started => ReportView::Started,
            Report::Received(count) => ReportView::Received(*count),
            Report::Downloaded => ReportView::Downloaded,
            Report::Installed => ReportView::Installed,
            Report::Failed(error) => ReportView::Failed(error.message_spec()),
        }
    }
}

/// The state of a run: its batch, its phase, and the bytes counted for the
/// download at hand.
pub struct RunView {
    pub batch: Seq<AssetView>,
    pub phase: Phase,
    pub received: u32,
}

impl RunView {
    /// A run points at a bundle of its batch while it works on one, and
    /// the places of its batch can be counted in a `usize`.
    pub open spec fn wf(self) -> bool {
        &&& self.batch.len() <= usize::MAX
        &&& match self.phase {
            Phase::Downloading(index) => index < self.batch.len(),
            Phase::Installing(index) => index < self.batch.len(),
            _ => true,
        }
    }

    /// Whether the run is over.
    pub open spec fn is_over(self) -> bool {
        self.phase == Phase::Error || self.phase == Phase::Done
    }
}

/// The byte count after `count` more bytes: the sum, held at the largest
/// `u32` where it would pass it.
pub open spec fn count_after(received: u32, count: usize) -> u32 {
    if received + count > u32::MAX {
        u32::MAX
    } else {
        (received + count) as u32
    }
}

/// The event that tells how far the download of `asset` has come.
pub open spec fn downloading(asset: AssetView, done: u32) -> EventView {
    EventView::Downloading { name: shown_name(asset.name), done, total: asset.size }
}

/// The run as it turns to the bundle at `index`, with the event for it: the
/// download begins at zero bytes, or the run is done where the batch has no
/// such bundle.
pub open spec fn turn_to(batch: Seq<AssetView>, index: int) -> (RunView, Option<EventView>) {
    if 0 <= index < batch.len() {
        (
            RunView { batch, phase: Phase::Downloading(index as usize), received: 0 },
            Some(downloading(batch[index], 0)),
        )
    } else {
        (RunView { batch, phase: Phase::Done, received: 0 }, Some(EventView::Finished))
    }
}

/// The run after a report, and the event that the report brings. A report
/// that does not belong to the phase changes nothing and brings no event.
pub open spec fn step(run: RunView, report: ReportView) -> (RunView, Option<EventView>) {
    match (run.phase, report) {
        (Phase::Idle, ReportView::Started) => turn_to(run.batch, 0),
        (Phase::Downloading(index), ReportView::Received(count)) => (
            RunView { received: count_after(run.received, count), ..run },
            Some(downloading(run.batch[index as int], count_after(run.received, count))),
        ),
        (Phase::Downloading(index), ReportView::Downloaded) => (
            RunView { phase: Phase::Installing(index), ..run },
            Some(EventView::Installing(shown_name(run.batch[index as int].name))),
        ),
        (Phase::Installing(index), ReportView::Installed) => turn_to(run.batch, index + 1),
        (Phase::Downloading(_), ReportView::Failed(message)) => (
            RunView { phase: Phase::Error, ..run },
            Some(EventView::Error(message)),
        ),
        (Phase::Installing(_), ReportView::Failed(message)) => (
            RunView { phase: Phase::Error, ..run },
            Some(EventView::Error(message)),
        ),
        _ => (run, None),
    }
}

/// An install run over a batch of bundles.
pub struct InstallRun {
    batch: Vec<ReleaseAsset>,
    phase: Phase,
    received: u32,
}

impl View for InstallRun {
    type V = RunView;

    closed spec fn view(&self) -> RunView {
        RunView { batch: views(self.batch@), phase: self.phase, received: self.received }
    }
}

impl InstallRun {
    #[verifier::type_invariant]
    spec fn inv(self) -> bool {
        self@.wf()
    }

    /// A run over `batch`, in the order in which the bundles stand in it.
    /// Nothing has begun.
    pub fn new(batch: Vec<ReleaseAsset>) -> (run: InstallRun)
        ensures
            run@ == (RunView { batch: views(batch@), phase: Phase::Idle, received: 0 }),
            run@.wf(),
    {
        assert(batch.len() == views(batch@).len());
        InstallRun { batch, phase: Phase::Idle, received: 0 }
    }

    /// Where the run stands.
    pub fn phase(&self) -> (phase: Phase)
        ensures
            phase == self@.phase,
            self@.wf(),
    {
        proof {
            use_type_invariant(self);
        }
        self.phase
    }

    /// The bundle that the run works on, while it works on one.
    pub fn current(&self) -> (asset: Option<&ReleaseAsset>)
        ensures
            match self@.phase {
                Phase::Downloading(index) => asset.is_some() && asset.unwrap()@
                    == self@.batch[index as int],
                Phase::Installing(index) => asset.is_some() && asset.unwrap()@
                    == self@.batch[index as int],
                _ => asset.is_none(),
            },
    {
        proof {
            use_type_invariant(self);
        }
        match self.phase {
            Phase::Downloading(index) => Some(&self.batch[index]),
            Phase::Installing(index) => Some(&self.batch[index]),
            _ => None,
        }
    }

    fn turn_to(&mut self, index: usize) -> (event: ProgressEvent)
        requires
            index <= old(self)@.batch.len(),
        ensures
            (final(self)@, Some(event@)) == turn_to(old(self)@.batch, index as int),
    {
        proof {
            use_type_invariant(&*self);
        }
        self.received = 0;
        if index < self.batch.len() {
            self.phase = Phase::Downloading(index);
            let asset = &self.batch[index];
            ProgressEvent::Downloading { name: asset.display_name(), done: 0, total: asset.size }
        } else {
            self.phase = Phase::Done;
            ProgressEvent::Finished
        }
    }

    /// Takes a report of the worker: the run moves on, and the event that
    /// tells of it is returned. A report that does not belong to the phase
    /// of the run is passed over.
    pub fn step(&mut self, report: Report) -> (event: Option<ProgressEvent>)
        ensures
            final(self)@ == step(old(self)@, report@).0,
            match event {
                Some(e) => step(old(self)@, report@).1 == Some(e@),
                None => step(old(self)@, report@).1.is_none(),
            },
            final(self)@.wf(),
    {
        proof {
            use_type_invariant(&*self);
        }
        let event = match (self.phase, report) {
            (Phase::Idle, Report::Started) => Some(self.turn_to(0)),
            (Phase::Downloading(index), Report::Received(count)) => {
                let room = u32::MAX - self.received;
                if count > room as usize {
                    self.received = u32::MAX;
                } else {
                    self.received = self.received + count as u32;
                }
                let asset = &self.batch[index];
                Some(
                    ProgressEvent::Downloading {
                        name: asset.display_name(),
                        done: self.received,
                        total: asset.size,
                    },
                )
            },
            (Phase::Downloading(index), Report::Downloaded) => {
                self.phase = Phase::Installing(index);
                Some(ProgressEvent::Installing(self.batch[index].display_name()))
            },
            (Phase::Installing(index), Report::Installed) => {
                assert(index < self.batch.len());
                Some(self.turn_to(index + 1))
            },
            (Phase::Downloading(_), Report::Failed(error)) => {
                self.phase = Phase::Error;
                Some(ProgressEvent::Error(error.message()))
            },
            (Phase::Installing(_), Report::Failed(error)) => {
                self.phase = Phase::Error;
                Some(ProgressEvent::Error(error.message()))
            },
            _ => None,
        };
        proof {
            use_type_invariant(&*self);
        }
        event
    }
}

} // verus!
