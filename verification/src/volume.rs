//! Debounced application of remote volume changes.
//!
//! Key repeats and mouse scrolling produce bursts of volume updates, and the remote side accepts
//! only few requests. Every burst collapses to a single request that carries the latest value
//! once the input stream goes quiet for [`SETTLE_WINDOW`].
//!
//! Bursts are taken to target one device at a time: updates for another device that arrive
//! within a burst are applied to the device that the burst began with.
use vstd::prelude::*;
use crate::time::NANOS_PER_MILLI;

verus! {

/// Quiet period a volume-update stream must reach before exactly one request is made, in
/// nanoseconds.
pub const SETTLE_WINDOW: u128 = 150 * NANOS_PER_MILLI;

/// What the worker is told.
pub enum Event {
    /// An update came in: an absolute volume in percent for a device.
    Arrived { device: Option<String>, volume: u8 },
    /// No update came in for the settle window.
    Quiet,
    /// No update can come in any more.
    Closed,
}

/// What the worker wants done next.
pub enum Action {
    /// Wait for an update, however long it takes.
    AwaitUpdate,
    /// Wait for an update, but no longer than the settle window.
    AwaitQuiet,
    /// Set the volume of a device, and then wait for an update.
    Apply { device: Option<String>, volume: u8 },
    /// End the worker.
    Stop,
}

/// The worker that coalesces bursts of volume updates.
pub enum VolumeWorker {
    /// There is nothing to apply.
    Idle,
    /// A burst is going on: the device that it began with, and the latest volume.
    Settling { device: Option<String>, latest: u8 },
    /// No update can come in any more.
    Stopped,
}

/// A device by its name, where it has one.
pub type Device = Option<Seq<char>>;

pub ghost enum EventView {
    Arrived { device: Device, volume: u8 },
    Quiet,
    Closed,
}

pub ghost enum ActionView {
    AwaitUpdate,
    AwaitQuiet,
    Apply { device: Device, volume: u8 },
    Stop,
}

pub ghost enum WorkerView {
    Idle,
    Settling { device: Device, latest: u8 },
    Stopped,
}

pub open spec fn device_view(device: Option<String>) -> Device {
    match device {
        Some(name) => Some(name@),
        None => None,
    }
}

impl View for Event {
    type V = EventView;

    open spec fn view(&self) -> EventView {
        match self {
            Event::Arrived { device, volume } => EventView::Arrived {
                device: device_view(*device),
                volume: *volume,
            },
            Event::Quiet => EventView::Quiet,
            Event::Closed => EventView::Closed,
        }
    }
}

impl View for Action {
    type V = ActionView;

    open spec fn view(&self) -> ActionView {
        match self {
            Action::AwaitUpdate => ActionView::AwaitUpdate,
            Action::AwaitQuiet => ActionView::AwaitQuiet,
            Action::Apply { device, volume } => ActionView::Apply {
                device: device_view(*device),
                volume: *volume,
            },
            Action::Stop => ActionView::Stop,
        }
    }
}

impl View for VolumeWorker {
    type V = WorkerView;

    open spec fn view(&self) -> WorkerView {
        match self {
            VolumeWorker::Idle => WorkerView::Idle,
            VolumeWorker::Settling { device, latest } => WorkerView::Settling {
                device: device_view(*device),
                latest: *latest,
            },
            VolumeWorker::Stopped => WorkerView::Stopped,
        }
    }
}

impl WorkerView {
    /// What the worker becomes, and what it wants done.
    pub open spec fn step(self, event: EventView) -> (WorkerView, ActionView) {
        match (self, event) {
            (WorkerView::Stopped, _) => (WorkerView::Stopped, ActionView::Stop),
            (WorkerView::Idle, EventView::Closed) => (WorkerView::Stopped, ActionView::Stop),
            (WorkerView::Settling { device, latest }, EventView::Closed) => (
                WorkerView::Stopped,
                ActionView::Apply { device, volume: latest },
            ),
            (WorkerView::Idle, EventView::Arrived { device, volume }) => (
                WorkerView::Settling { device, latest: volume },
                ActionView::AwaitQuiet,
            ),
            (WorkerView::Idle, EventView::Quiet) => (WorkerView::Idle, ActionView::AwaitUpdate),
            (WorkerView::Settling { device, latest: _ }, EventView::Arrived { device: _, volume })
                => (WorkerView::Settling { device, latest: volume }, ActionView::AwaitQuiet),
            (WorkerView::Settling { device, latest }, EventView::Quiet) => (
                WorkerView::Idle,
                ActionView::Apply { device, volume: latest },
            ),
        }
    }
}

impl VolumeWorker {
    /// A worker that has seen no update yet; it wants to wait for one.
    pub fn new() -> (worker: (VolumeWorker, Action))
        ensures
            worker.0@ == WorkerView::Idle,
            worker.1@ == ActionView::AwaitUpdate,
    {
        (VolumeWorker::Idle, Action::AwaitUpdate)
    }

    /// Takes an event. Every update restarts the settle window; when the window passes without
    /// one, the latest volume is applied to the device that the burst began with. No update can
    /// follow when the stream ends, so a burst that is going on then is applied at once, and the
    /// worker ends with the next event.
    pub fn step(self, event: Event) -> (next: (VolumeWorker, Action))
        ensures
            (next.0@, next.1@) == self@.step(event@),
            match (self, event) {
                (VolumeWorker::Idle, Event::Arrived { device, volume }) => next.0
                    == (VolumeWorker::Settling { device, latest: volume }),
                (VolumeWorker::Settling { device, .. }, Event::Arrived { volume, .. }) => next.0
                    == (VolumeWorker::Settling { device, latest: volume }),
                (VolumeWorker::Settling { device, latest }, _) => next.1 == (Action::Apply {
                    device,
                    volume: latest,
                }) && next.0 !is Settling,
                _ => next.0 !is Settling && next.1 !is Apply,
            },
            event is Closed || self is Stopped <==> next.0 is Stopped,
            next.0 is Settling ==> next.1 is AwaitQuiet,
            next.0 is Idle ==> next.1 is AwaitUpdate || next.1 is Apply,
            next.0 is Stopped ==> next.1 is Stop || next.1 is Apply,
    {
        match self {
            VolumeWorker::Stopped => (VolumeWorker::Stopped, Action::Stop),
            VolumeWorker::Idle => match event {
                Event::Arrived { device, volume } => (
                    VolumeWorker::Settling { device, latest: volume },
                    Action::AwaitQuiet,
                ),
                Event::Quiet => (VolumeWorker::Idle, Action::AwaitUpdate),
                Event::Closed => (VolumeWorker::Stopped, Action::Stop),
            },
            VolumeWorker::Settling { device, latest } => match event {
                Event::Arrived { device: _, volume } => (
                    VolumeWorker::Settling { device, latest: volume },
                    Action::AwaitQuiet,
                ),
                Event::Quiet => (
                    VolumeWorker::Idle,
                    Action::Apply { device, volume: latest },
                ),
                Event::Closed => (
                    VolumeWorker::Stopped,
                    Action::Apply { device, volume: latest },
                ),
            },
        }
    }
}

} // verus!
