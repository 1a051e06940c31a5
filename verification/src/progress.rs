//! The events by which an install run reports its progress.

use vstd::prelude::*;

verus! {

/// One event of an install run.
#[derive(Debug, PartialEq, Eq)]
pub enum ProgressEvent {
    /// `done` bytes of the bundle `name` have arrived; its size is given as
    /// `total`.
    Downloading { name: String, done: u32, total: u32 },
    /// The bundle of this name has arrived and is being installed.
    Installing(String),
    /// The run has stopped for this reason.
    Error(String),
    /// Every bundle of the batch is installed.
    Finished,
}

/// A `ProgressEvent` with its strings as sequences of characters.
pub enum EventView {
    Downloading { name: Seq<char>, done: u32, total: u32 },
    Installing(Seq<char>),
    Error(Seq<char>),
    Finished,
}

impl View for ProgressEvent {
    type V = EventView;

    open spec fn view(&self) -> EventView {
        match self {
            ProgressEvent::Downloading { name, done, total } => EventView::Downloading {
                name: name@,
                done: *done,
                total: *total,
            },
            ProgressEvent::Installing(name) => EventView::Installing(name@),
            ProgressEvent::Error(message) => EventView::Error(message@),
            ProgressEvent::Finished => EventView::Finished,
        }
    }
}

impl EventView {
    /// Whether this event ends a run.
    pub open spec fn is_last(self) -> bool {
        self is Error || self is Finished
    }
}

} // verus!
