//! One place on the screen that shows a cover image: its surface and the burst bookkeeping.
use vstd::prelude::*;
use image::DynamicImage;
use ratatui::Frame;
use ratatui_image::picker::Picker;
use crate::geometry::Rect;
use crate::graphics::{frame_cells, Cells};
use crate::surface::{
    encoded_if, encoding_of, prepared, surface_view, text_view, EncodeError, EncodedView, Encoding,
    Surface, SurfaceView,
};
use crate::time::{elapsed, Instant, NANOS_PER_MILLI};

verus! {

/// Quiet period a stream of image-target changes must reach before exactly one encode and
/// transmit is issued for the latest target, in nanoseconds.
pub const URL_SETTLE_WINDOW: u128 = 150 * NANOS_PER_MILLI;

/// The currently encoded surface of a slot and the last request for it.
pub struct Slot {
    pub surface: Surface,
    /// The last observed request, distinct from the surface's own while a burst is deferred.
    pub requested_url: Option<String>,
    pub requested_area: Option<Rect>,
    /// When the request last changed.
    pub last_change: Option<Instant>,
}

pub ghost struct SlotView {
    pub surface: SurfaceView,
    pub requested_url: Option<Seq<char>>,
    pub requested_area: Option<Rect>,
    pub last_change: Option<Instant>,
}

/// What a slot does about its surface when it is asked to render.
#[derive(Clone, Copy, Debug, PartialEq, Eq, Structural)]
pub enum Step {
    /// Encode the requested target, which has settled, in place of the surface.
    Adopt,
    /// Encode again because the terminal may have lost the surface.
    Heal,
    /// Draw the surface as it is.
    Keep,
}

/// What a rendering pass did.
pub enum Outcome {
    /// The requested target could not be encoded, and nothing was drawn.
    Skipped(EncodeError),
    /// The slot was drawn. `transmit` is to be written to the terminal as it stands.
    Drawn {
        transmit: Option<String>,
        /// Why healing failed, if it was due and did.
        heal_error: Option<EncodeError>,
        /// Whether the picture could be scaled to the area. If not, its cells were left alone.
        painted: bool,
    },
}

pub ghost enum OutcomeView {
    Skipped(EncodeError),
    Drawn { transmit: Option<Seq<char>>, heal_error: Option<EncodeError>, painted: bool },
}

impl View for Outcome {
    type V = OutcomeView;

    open spec fn view(&self) -> OutcomeView {
        match self {
            Outcome::Skipped(error) => OutcomeView::Skipped(*error),
            Outcome::Drawn { transmit, heal_error, painted } => OutcomeView::Drawn {
                transmit: text_view(*transmit),
                heal_error: *heal_error,
                painted: *painted,
            },
        }
    }
}

/// The outcome of a pass that shows the freshly prepared `surface` at `area`.
pub open spec fn shown(surface: SurfaceView, area: Rect) -> OutcomeView {
    OutcomeView::Drawn {
        transmit: surface.kind.transmission(area),
        heal_error: None,
        painted: surface.kind.paintable(area),
    }
}

/// The outcome of a pass that draws `surface` at `area` as it was, with the error of a failed heal.
pub open spec fn redrawn(
    surface: SurfaceView,
    area: Rect,
    heal_error: Option<EncodeError>,
) -> OutcomeView {
    OutcomeView::Drawn { transmit: None, heal_error, painted: surface.kind.paintable(area) }
}

/// Whether a pass that draws `drawn`, or nothing, at `area` turns the cells `before` into `after`.
pub open spec fn pass_drawn(
    drawn: Option<EncodedView>,
    area: Rect,
    before: Cells,
    after: Cells,
) -> bool {
    match drawn {
        Some(kind) => kind.drawn(area, before, after),
        None => after == before,
    }
}

impl View for Slot {
    type V = SlotView;

    open spec fn view(&self) -> SlotView {
        SlotView {
            surface: self.surface@,
            requested_url: match self.requested_url {
                Some(url) => Some(url@),
                None => None,
            },
            requested_area: self.requested_area,
            last_change: self.last_change,
        }
    }
}

impl SlotView {
    /// A slot that was just made for its first request.
    pub open spec fn first(
        surface: SurfaceView,
        url: Seq<char>,
        area: Rect,
        now: Instant,
    ) -> SlotView {
        SlotView {
            surface,
            requested_url: Some(url),
            requested_area: Some(area),
            last_change: Some(now),
        }
    }

    /// Whether the last request was for this target.
    pub open spec fn requests(self, url: Seq<char>, area: Rect) -> bool {
        self.requested_url == Some(url) && self.requested_area == Some(area)
    }

    /// Whether the surface was encoded for this target.
    pub open spec fn shows(self, url: Seq<char>, area: Rect) -> bool {
        self.surface.url == url && self.surface.area == area
    }

    /// Whether the requests have not changed for the settle window.
    pub open spec fn settled(self, now: Instant) -> bool {
        match self.last_change {
            Some(at) => elapsed(at, now) >= URL_SETTLE_WINDOW,
            None => true,
        }
    }

    /// The slot after it was asked for a target at `now`: only a change of the target is recorded
    /// and restarts the settle window.
    pub open spec fn observed(self, url: Seq<char>, area: Rect, now: Instant) -> SlotView {
        if self.requests(url, area) {
            self
        } else {
            SlotView {
                requested_url: Some(url),
                requested_area: Some(area),
                last_change: Some(now),
                ..self
            }
        }
    }

    /// What is done for a target that was just observed.
    pub open spec fn step(self, url: Seq<char>, area: Rect, epoch: u64, now: Instant) -> Step {
        if !self.shows(url, area) && self.settled(now) {
            Step::Adopt
        } else if self.surface.needs_heal(epoch, now) {
            Step::Heal
        } else {
            Step::Keep
        }
    }

    /// Whether a request for this target makes the slot encode it.
    pub open spec fn encodes(self, url: Seq<char>, area: Rect, epoch: u64, now: Instant) -> bool {
        self.observed(url, area, now).step(url, area, epoch, now) != Step::Keep
    }

    /// The slot after it was asked to show `url` at `area` in frame `epoch` at `now`, the outcome of
    /// that, and what was drawn for it, as it was before the drawing. `fresh` is what preparing
    /// the target comes to, should it be prepared.
    pub open spec fn pass(
        self,
        url: Seq<char>,
        area: Rect,
        epoch: u64,
        now: Instant,
        fresh: Result<SurfaceView, EncodeError>,
    ) -> (SlotView, OutcomeView, Option<EncodedView>) {
        let slot = self.observed(url, area, now);
        let kept = SlotView { surface: slot.surface.rendered(epoch, area), ..slot };
        let kind = slot.surface.kind;
        match (slot.step(url, area, epoch, now), fresh) {
            (Step::Keep, _) => (kept, redrawn(slot.surface, area, None), Some(kind)),
            (_, Ok(surface)) => (
                SlotView { surface: surface.rendered(epoch, area), ..slot },
                shown(surface, area),
                Some(surface.kind),
            ),
            (Step::Adopt, Err(error)) => (slot, OutcomeView::Skipped(error), None),
            (Step::Heal, Err(error)) => (
                kept,
                redrawn(slot.surface, area, Some(error)),
                Some(kind),
            ),
        }
    }

    /// Whether the surface has encoded its picture for the area that was last asked for, if it is
    /// a widget that can be drawn there.
    pub open spec fn ready(self) -> bool {
        self.requested_area matches Some(area) ==> self.surface.kind.ready_at(area)
    }
}

impl Slot {
    /// The surface is consistent, and was drawn for the area that was last asked for.
    pub open spec fn wf(self) -> bool {
        self.surface.wf() && self@.ready()
    }

    /// Records a request. Only genuine target changes reset the settle clock; identical repeats
    /// are free observations that let a deferred burst settle.
    pub fn observe(&mut self, url: &str, area: Rect, now: Instant)
        ensures
            final(self)@ == old(self)@.observed(url@, area, now),
            final(self).surface == old(self).surface,
    {
        let target = url.to_owned();
        let same_url = match &self.requested_url {
            Some(requested) => *requested == target,
            None => false,
        };
        let same_area = match self.requested_area {
            Some(requested) => requested == area,
            None => false,
        };
        if !same_url || !same_area {
            self.requested_url = Some(target);
            self.requested_area = Some(area);
            self.last_change = Some(now);
        }
    }

    /// Decides what to do for a target that was just observed.
    pub fn step(&self, url: &str, area: Rect, epoch: u64, now: Instant) -> (step: Step)
        ensures
            step == self@.step(url@, area, epoch, now),
    {
        let target = url.to_owned();
        let changed = !(self.surface.url == target) || self.surface.area != area;
        let settled = match self.last_change {
            Some(at) => now.duration_since(at) >= URL_SETTLE_WINDOW,
            None => true,
        };
        if changed && settled {
            Step::Adopt
        } else if self.surface.needs_heal(epoch, now) {
            Step::Heal
        } else {
            Step::Keep
        }
    }

    /// Draws the slot for a request that it has seen before, preparing the target again if it
    /// settled or if the terminal may have lost the surface.
    pub fn render(
        &mut self,
        frame: &mut Frame<'_>,
        picker: &Picker,
        url: &str,
        img: &DynamicImage,
        area: Rect,
        epoch: u64,
        now: Instant,
    ) -> (outcome: Outcome)
        requires
            old(self).wf(),
        ensures
            final(self).wf(),
            exists|encoding: Encoding| #[trigger]
                encoded_if(
                    old(self)@.encodes(url@, area, epoch, now),
                    *picker,
                    *img,
                    encoding,
                ) && {
                    let fresh = prepared(*picker, url@, *img, area, epoch, now, encoding);
                    let (slot, result, drawn) = old(self)@.pass(url@, area, epoch, now, fresh);
                    &&& final(self)@ == slot
                    &&& outcome@ == result
                    &&& pass_drawn(
                        drawn,
                        area,
                        frame_cells(*old(frame)),
                        frame_cells(*final(frame)),
                    )
                },
    {
        let ghost encodes = self@.encodes(url@, area, epoch, now);
        self.observe(url, area, now);
        let step = self.step(url, area, epoch, now);
        let mut transmit: Option<String> = None;
        let mut heal_error: Option<EncodeError> = None;
        if step == Step::Keep {
            assert(encoded_if(encodes, *picker, *img, arbitrary()));
        } else {
            let prepared_surface = Surface::prepare(picker, url, img, area, epoch, now);
            proof {
                let encoding = choose|encoding: Encoding| #[trigger]
                    encoding_of(*picker, *img, encoding) && surface_view(prepared_surface)
                        == prepared(*picker, url@, *img, area, epoch, now, encoding);
                assert(encoded_if(encodes, *picker, *img, encoding));
            }
            match prepared_surface {
                Ok(fresh) => {
                    transmit = fresh.transmission(area);
                    self.surface = fresh;
                },
                Err(error) => {
                    if step == Step::Adopt {
                        return Outcome::Skipped(error);
                    }
                    heal_error = Some(error);
                },
            }
        }
        self.surface.last_frame = epoch;
        let painted = self.surface.draw(frame, area);
        Outcome::Drawn { transmit, heal_error, painted }
    }
}

} // verus!
