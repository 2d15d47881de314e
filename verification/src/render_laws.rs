//! What shows of a rendering: which target the slot holds, what reaches the cells, and what is to be
//! written to the terminal.
use vstd::prelude::*;
use image::DynamicImage;
use ratatui_image::picker::Picker;
use ratatui_image::protocol::StatefulProtocol;
use crate::base64_text::base64_text;
use crate::compositor::{renders, renders_with, CompositorView};
use crate::geometry::Rect;
use crate::graphics::{
    drawn_protocol, image_len, image_pixels, painted_cells, picker_font, picker_protocol,
    pixel_bytes, pixel_channels, png_file, protocol_picture, shorter, side_fits, source_samples,
    undrawn, Cells, DiffOption, Picture, ProtocolKind,
};
use crate::iterm2::{image_escape, placed_escape};
use crate::slot::{Outcome, OutcomeView, Slot, SlotView, URL_SETTLE_WINDOW};
use crate::surface::{
    encoded_if, escaped, prepared, EncodeError, Encoded, EncodedView, Encoding,
    TRANSMIT_REFRESH_INTERVAL,
};
use crate::time::{Clock, Instant};

verus! {

/// One call that renders a slot: the compositor and the cells before and after it, what it was given,
/// the time it went by, and its outcome.
pub ghost struct Rendering {
    pub this: CompositorView,
    pub picker: Picker,
    pub id: Seq<char>,
    pub url: Seq<char>,
    pub img: DynamicImage,
    pub area: Rect,
    pub now: Instant,
    pub after: CompositorView,
    pub outcome: OutcomeView,
    pub before: Cells,
    pub painted: Cells,
}

impl Rendering {
    /// Whether the call can go like this.
    pub open spec fn holds(self) -> bool {
        renders(
            self.this,
            self.picker,
            self.id,
            self.url,
            self.img,
            self.area,
            self.now,
            self.after,
            self.outcome,
            self.before,
            self.painted,
        )
    }

    /// The slot before the call.
    pub open spec fn slot(self) -> SlotView {
        self.this.slots[self.id]
    }

    /// The slot after the call.
    pub open spec fn left(self) -> SlotView {
        self.after.slots[self.id]
    }

    /// Whether the slot was there before the call.
    pub open spec fn known(self) -> bool {
        self.this.slots.dom().contains(self.id)
    }

    /// Whether the image could not be encoded.
    pub open spec fn failed(self) -> bool {
        ||| self.outcome is Skipped
        ||| self.outcome matches OutcomeView::Drawn { heal_error, .. } && heal_error is Some
    }
}

/// The encoding that a rendering goes with.
proof fn lemma_encoding(r: Rendering) -> (encoding: Encoding)
    requires
        r.holds(),
    ensures
        encoded_if(r.this.encodes(r.id, r.url, r.area, r.now), r.picker, r.img, encoding),
        renders_with(
            r.this,
            r.picker,
            r.id,
            r.url,
            r.img,
            r.area,
            r.now,
            encoding,
            r.after,
            r.outcome,
            r.before,
            r.painted,
        ),
{
    choose|encoding: Encoding| #[trigger]
        encoded_if(r.this.encodes(r.id, r.url, r.area, r.now), r.picker, r.img, encoding)
            && renders_with(
            r.this,
            r.picker,
            r.id,
            r.url,
            r.img,
            r.area,
            r.now,
            encoding,
            r.after,
            r.outcome,
            r.before,
            r.painted,
        )
}

/// A target that was asked for last and has not changed for the settle window is what the slot
/// holds after the next rendering of it, unless it cannot be encoded.
pub proof fn law_quiet_target_is_shown(r: Rendering)
    requires
        r.holds(),
        r.known(),
        r.slot().requested_url == Some(r.url),
        r.slot().requested_area == Some(r.area),
        r.slot().last_change matches Some(at) ==> at.nanos + URL_SETTLE_WINDOW <= r.now.nanos,
    ensures
        r.failed() || (r.left().surface.url == r.url && r.left().surface.area == r.area),
{
    let encoding = lemma_encoding(r);
}

/// A change of selection settles by the clock. If a slot is rendered with a new target, and next with
/// the same target at a reading that is later by the settle window or more, the slot holds that
/// target, unless it cannot be encoded. Frames may begin in between.
pub proof fn law_change_settles_by_the_clock(
    first: Rendering,
    second: Rendering,
    start: Clock,
    between: Clock,
    end: Clock,
)
    requires
        first.holds(),
        second.holds(),
        start.reads(first.now, between),
        between.reads(second.now, end),
        first.known(),
        second.this.slots == first.after.slots,
        second.id == first.id,
        second.url == first.url,
        second.area == first.area,
        first.slot().requested_url != Some(first.url) || first.slot().requested_area != Some(
            first.area,
        ),
        second.now.nanos - first.now.nanos >= URL_SETTLE_WINDOW,
    ensures
        first.now.nanos <= second.now.nanos,
        second.failed() || (second.left().surface.url == first.url && second.left().surface.area
            == first.area),
{
    crate::time::law_readings_never_decrease(between, second.now, end);
    crate::time::law_readings_never_decrease(start, first.now, between);
    let encoding = lemma_encoding(first);
    law_quiet_target_is_shown(second);
}

/// Every rendering of a slot that was drawn before records the target, and the time of the call if
/// the target is a new one.
pub proof fn law_request_is_recorded(r: Rendering)
    requires
        r.holds(),
        r.known(),
    ensures
        r.after.slots.dom().contains(r.id),
        r.left().requested_url == Some(r.url),
        r.left().requested_area == Some(r.area),
        r.left().last_change == if r.slot().requested_url == Some(r.url)
            && r.slot().requested_area == Some(r.area) {
            r.slot().last_change
        } else {
            Some(r.now)
        },
{
    let encoding = lemma_encoding(r);
}

/// Whether `kind` is the encoded form of the image of `r`, prepared in this call and drawn once, in
/// this call: an inline image that carries the PNG file for the area, which is to be transmitted,
/// or a widget whose protocol was never drawn before, holds the picture in the way of the picker,
/// and painted the cells.
pub open spec fn made_in(r: Rendering, kind: EncodedView) -> bool {
    if picker_protocol(r.picker) == ProtocolKind::Iterm2 {
        let escape = image_escape(png_file(r.img), r.area@);
        &&& kind == (EncodedView::Iterm2 { escape })
        &&& r.outcome matches OutcomeView::Drawn { transmit, .. } && transmit == Some(
            placed_escape(escape, r.area@),
        )
    } else {
        &&& r.outcome matches OutcomeView::Drawn { transmit: None, painted, .. }
        &&& exists|protocol: StatefulProtocol| #[trigger]
            undrawn(protocol) && {
                let picture = Picture {
                    kind: picker_protocol(r.picker),
                    pixels: image_pixels(r.img),
                    font: picker_font(r.picker),
                    samples: source_samples(r.picker, r.img),
                };
                &&& protocol_picture(protocol) == picture
                &&& kind == (EncodedView::Widget {
                    protocol: if painted {
                        drawn_protocol(protocol, r.area)
                    } else {
                        protocol
                    },
                    picture,
                    size: r.area@.size(),
                    scheduled: picker_protocol(r.picker) == ProtocolKind::Kitty,
                })
                &&& r.painted == if painted {
                    painted_cells(protocol, r.area, r.before)
                } else {
                    r.before
                }
            }
    }
}

/// Whether the slot holds a surface that was made in this call, for this target and frame, and sent
/// at this time.
pub open spec fn renewed(r: Rendering) -> bool {
    &&& r.left().surface.url == r.url
    &&& r.left().surface.area == r.area
    &&& r.left().surface.last_emitted == r.now
    &&& r.left().surface.last_frame == r.this.epoch
    &&& made_in(r, r.left().surface.kind)
}

/// A slot that is rendered for the first time is made for the target in this call. If the image
/// cannot be encoded, nothing changes at all.
pub proof fn law_first_sight_is_new(r: Rendering)
    requires
        r.holds(),
        !r.known(),
    ensures
        r.outcome is Skipped ==> r.after == r.this && r.painted == r.before,
        r.outcome is Drawn ==> {
            &&& r.after.slots.dom() == r.this.slots.dom().insert(r.id)
            &&& r.outcome->heal_error is None
            &&& renewed(r)
            &&& r.left().requested_url == Some(r.url)
            &&& r.left().requested_area == Some(r.area)
            &&& r.left().last_change == Some(r.now)
        },
{
    let encoding = lemma_encoding(r);
    lemma_made(r, encoding);
}

/// What is made in a call comes from its encoding.
proof fn lemma_made(r: Rendering, encoding: Encoding)
    requires
        r.this.encodes(r.id, r.url, r.area, r.now),
        encoded_if(true, r.picker, r.img, encoding),
        renders_with(
            r.this,
            r.picker,
            r.id,
            r.url,
            r.img,
            r.area,
            r.now,
            encoding,
            r.after,
            r.outcome,
            r.before,
            r.painted,
        ),
    ensures
        !r.failed() ==> renewed(r),
{
    if !r.failed() && picker_protocol(r.picker) != ProtocolKind::Iterm2 {
        assert(undrawn(encoding.protocol));
        let fresh = prepared(r.picker, r.url, r.img, r.area, r.this.epoch, r.now, encoding);
        assert(fresh->Ok_0.kind.drawn(r.area, r.before, r.painted));
    }
}

/// A slot prepares its target anew if that has settled and is not what the slot holds, if the
/// surface missed a frame, or if it is overdue; unless the image cannot be encoded, the slot then
/// holds what was made in this call.
pub proof fn law_surface_is_renewed(r: Rendering)
    requires
        r.holds(),
        r.known(),
        ({
            let slot = r.slot();
            let shown = slot.surface;
            let repeated = slot.requested_url == Some(r.url) && slot.requested_area == Some(
                r.area,
            );
            let quiet = repeated && (slot.last_change matches Some(at) ==> at.nanos
                + URL_SETTLE_WINDOW <= r.now.nanos);
            let another = shown.url != r.url || shown.area != r.area;
            let vanishes = match shown.kind {
                EncodedView::Iterm2 { .. } => true,
                EncodedView::Widget { scheduled, .. } => scheduled,
            };
            let overdue = vanishes && shown.last_emitted.nanos + TRANSMIT_REFRESH_INTERVAL
                <= r.now.nanos;
            let missed = shown.last_frame + 1 < r.this.epoch;
            quiet && another || missed || overdue
        }),
    ensures
        r.failed() || renewed(r),
{
    let encoding = lemma_encoding(r);
    lemma_made(r, encoding);
}

/// In all other cases the slot keeps its surface, whatever the image is: nothing is to be
/// transmitted, no error can come up, and the surface is as it was but for the frame that it was
/// drawn in. A widget paints the cells with the protocol that it had.
pub proof fn law_surface_is_kept(r: Rendering)
    requires
        r.holds(),
        r.known(),
        ({
            let slot = r.slot();
            let shown = slot.surface;
            let repeated = slot.requested_url == Some(r.url) && slot.requested_area == Some(
                r.area,
            );
            let quiet = repeated && (slot.last_change matches Some(at) ==> at.nanos
                + URL_SETTLE_WINDOW <= r.now.nanos);
            let another = shown.url != r.url || shown.area != r.area;
            let vanishes = match shown.kind {
                EncodedView::Iterm2 { .. } => true,
                EncodedView::Widget { scheduled, .. } => scheduled,
            };
            let overdue = vanishes && shown.last_emitted.nanos + TRANSMIT_REFRESH_INTERVAL
                <= r.now.nanos;
            let missed = shown.last_frame + 1 < r.this.epoch;
            !(quiet && another) && !missed && !overdue
        }),
    ensures
        ({
            &&& r.outcome matches OutcomeView::Drawn { transmit: None, heal_error: None, painted }
            &&& drawn_again(r, painted)
        }),
{
    let encoding = lemma_encoding(r);
}

/// Whether the slot holds the surface that it held before, drawn once more in this call.
pub open spec fn drawn_again(r: Rendering, painted: bool) -> bool {
    let old_surface = r.slot().surface;
    &&& r.left().surface.url == old_surface.url
    &&& r.left().surface.area == old_surface.area
    &&& r.left().surface.last_emitted == old_surface.last_emitted
    &&& r.left().surface.last_frame == r.this.epoch
    &&& match old_surface.kind {
        EncodedView::Iterm2 { .. } => r.left().surface.kind == old_surface.kind,
        EncodedView::Widget { protocol, picture, size, scheduled } => {
            &&& r.left().surface.kind == (EncodedView::Widget {
                protocol: if painted {
                    drawn_protocol(protocol, r.area)
                } else {
                    protocol
                },
                picture,
                size,
                scheduled,
            })
            &&& r.painted == if painted {
                painted_cells(protocol, r.area, r.before)
            } else {
                r.before
            }
        },
    }
}

/// Only inline images can fail. An image that does not fill its buffer is malformed; one that is
/// empty or has samples wider than a byte may be refused by the encoder; and a file whose text is
/// longer than memory can hold is too large. Everything else is encoded.
pub proof fn law_failures_have_a_cause(r: Rendering)
    requires
        r.holds(),
        r.failed(),
    ensures
        picker_protocol(r.picker) == ProtocolKind::Iterm2,
        ({
            let error = match r.outcome {
                OutcomeView::Skipped(error) => error,
                OutcomeView::Drawn { heal_error, .. } => heal_error->Some_0,
            };
            let (width, height) = image_pixels(r.img);
            let fills = image_len(r.img) == width * height * pixel_bytes(r.img);
            &&& error is Malformed <==> !fills
            &&& error is Png ==> width == 0 || height == 0 || pixel_bytes(r.img) > pixel_channels(
                r.img,
            )
            &&& error is TooLarge ==> base64_text(png_file(r.img)).len() > isize::MAX
        }),
{
    let encoding = lemma_encoding(r);
}

/// Encoding never fails for a widget. For an inline image it does not fail if the image is not empty,
/// has samples of one byte and fills its buffer, and the text of its file fits into memory.
pub proof fn law_plain_targets_never_fail(r: Rendering)
    requires
        r.holds(),
        picker_protocol(r.picker) != ProtocolKind::Iterm2 || {
            let (width, height) = image_pixels(r.img);
            &&& image_len(r.img) == width * height * pixel_bytes(r.img)
            &&& width > 0
            &&& height > 0
            &&& pixel_bytes(r.img) == pixel_channels(r.img)
            &&& 4 * ((png_file(r.img).len() + 2) / 3) <= isize::MAX
        },
    ensures
        r.outcome is Drawn,
        r.outcome->heal_error is None,
{
    let encoding = lemma_encoding(r);
}

/// A target that failed to be encoded is skipped if it was to take the place of another one: the
/// surface and the cells stay as they were. If it was to replace itself, the surface that is there
/// is drawn once more.
pub proof fn law_failure_leaves_what_was_there(r: Rendering)
    requires
        r.holds(),
        r.known(),
        r.failed(),
    ensures
        r.outcome is Skipped <==> {
            &&& r.slot().requested_url == Some(r.url)
            &&& r.slot().requested_area == Some(r.area)
            &&& r.slot().last_change matches Some(at) ==> at.nanos + URL_SETTLE_WINDOW
                <= r.now.nanos
            &&& r.slot().surface.url != r.url || r.slot().surface.area != r.area
        },
        r.outcome is Skipped ==> r.left().surface == r.slot().surface && r.painted == r.before,
        r.outcome matches OutcomeView::Drawn { transmit, painted, .. } ==> transmit is None
            && drawn_again(r, painted),
{
    let encoding = lemma_encoding(r);
}

/// After a rendering that drew an inline image, every cell of its area that the frame has is left
/// alone when the screen is brought up to date. Nothing else about the cells changes: they keep
/// their text and style, and the cells outside the area stay as they were.
pub proof fn law_cells_under_inline_images_are_left_alone(r: Rendering)
    requires
        r.holds(),
        r.outcome is Drawn,
        r.left().surface.kind is Iterm2,
    ensures
        r.outcome->painted,
        r.painted.dom() == r.before.dom(),
        forall|x: u16, y: u16|
            #![trigger r.painted[(x, y)]]
            r.before.dom().contains((x, y)) ==> {
                let (old_cell, cell) = (r.before[(x, y)], r.painted[(x, y)]);
                &&& cell.symbol == old_cell.symbol
                &&& cell.style == old_cell.style
                &&& cell.skip == old_cell.skip
                &&& if r.area@.x <= x < r.area@.x + r.area@.width && r.area@.y <= y < r.area@.y
                    + r.area@.height {
                    cell.diff == DiffOption::Skip
                } else {
                    cell.diff == old_cell.diff
                }
            },
{
    let encoding = lemma_encoding(r);
    assert(r.painted.dom() =~= r.before.dom());
}

/// For an iTerm2 picker every first sight that is drawn leaves its cells to the inline image.
pub proof fn law_first_inline_image_keeps_its_cells(r: Rendering)
    requires
        r.holds(),
        !r.known(),
        r.outcome is Drawn,
        picker_protocol(r.picker) == ProtocolKind::Iterm2,
    ensures
        r.left().surface.kind is Iterm2,
        forall|x: u16, y: u16|
            #![trigger r.painted[(x, y)]]
            r.before.dom().contains((x, y)) && r.area@.x <= x < r.area@.x + r.area@.width
                && r.area@.y <= y < r.area@.y + r.area@.height ==> r.painted[(x, y)].diff
                == DiffOption::Skip,
{
    law_first_sight_is_new(r);
    law_cells_under_inline_images_are_left_alone(r);
}

/// No cell outside the area changes, whatever is drawn, and no cell comes or goes.
pub proof fn law_cells_elsewhere_stay(r: Rendering)
    requires
        r.holds(),
    ensures
        r.painted.dom() == r.before.dom(),
        forall|x: u16, y: u16|
            #![trigger r.painted[(x, y)]]
            r.before.dom().contains((x, y)) && !(r.area@.x <= x < r.area@.x + r.area@.width
                && r.area@.y <= y < r.area@.y + r.area@.height) ==> r.painted[(x, y)]
                == r.before[(x, y)],
{
    let encoding = lemma_encoding(r);
    assert(r.painted.dom() =~= r.before.dom());
}

/// The factor that is the largest in both directions decides for either side.
proof fn lemma_side(side: nat, room: nat, other: nat, other_room: nat, num: nat, den: nat)
    requires
        side > 0,
        other > 0,
        0 <= num <= den,
        0 < den,
        side * num <= room * den,
        other * num <= other_room * den,
        num == den || side * num == room * den || other * num == other_room * den,
    ensures
        side_fits(side, room, other, other_room) <==> 2 * (side * num) < 131071 * den,
{
    let fitted = shorter(side, room);
    let other_fitted = shorter(other, other_room);
    assert(side * num <= side * den && other * num <= other * den) by (nonlinear_arith)
        requires
            num <= den,
    ;
    if num == den {
        assert(side <= room) by (nonlinear_arith)
            requires
                side * den <= room * den,
                den > 0,
        ;
    }
    if side * num == room * den {
        assert(room <= side) by (nonlinear_arith)
            requires
                room * den <= side * den,
                den > 0,
        ;
    }
    if other * num == other_room * den {
        assert(other_room <= other) by (nonlinear_arith)
            requires
                other_room * den <= other * den,
                den > 0,
        ;
    }
    assert(side * num == fitted * den || other * num == other_fitted * den);
    if fitted <= 65535 {
        assert(2 * (side * num) < 131071 * den) by (nonlinear_arith)
            requires
                side * num <= fitted * den,
                fitted <= 65535,
                den > 0,
        ;
    }
    if 2 * (side * other_fitted) < 131071 * other {
        assert(2 * (side * num) < 131071 * den) by (nonlinear_arith)
            requires
                other * num <= other_fitted * den,
                2 * (side * other_fitted) < 131071 * other,
                den > 0,
                other > 0,
                side > 0,
        {
            assert(2 * (side * num) * other <= 2 * (side * other_fitted) * den);
            assert(2 * (side * other_fitted) * den < 131071 * other * den);
        }
    }
    if 2 * (side * num) < 131071 * den {
        if side * num == fitted * den {
            assert(fitted <= 65535) by (nonlinear_arith)
                requires
                    2 * (fitted * den) < 131071 * den,
                    den > 0,
            ;
        } else {
            assert(2 * (side * other_fitted) < 131071 * other) by (nonlinear_arith)
                requires
                    other * num == other_fitted * den,
                    2 * (side * num) < 131071 * den,
                    den > 0,
                    other > 0,
            {
                assert(2 * (side * num) * other == 2 * (side * other_fitted) * den);
                assert(2 * (side * num) * other < 131071 * den * other);
            }
        }
    }
}

/// A widget is drawn if and only if a cell has pixels and 16 bits can count both sides of the picture
/// after it was scaled. Scaling is by the largest factor `num / den` of at most one for which the
/// picture fits into the pixels of the cells, and a side is rounded to whole pixels.
pub proof fn law_widget_is_drawn_if_16_bits_suffice(r: Rendering, num: nat, den: nat)
    requires
        r.holds(),
        r.outcome is Drawn,
        r.left().surface.kind matches EncodedView::Widget { picture, .. } && {
            let (width, height) = (picture.pixels.0 as nat, picture.pixels.1 as nat);
            let across = r.area@.width * picture.font.0 as nat;
            let down = r.area@.height * picture.font.1 as nat;
            &&& width > 0
            &&& height > 0
            &&& 0 <= num <= den
            &&& 0 < den
            &&& width * num <= across * den
            &&& height * num <= down * den
            &&& num == den || width * num == across * den || height * num == down * den
        },
    ensures
        r.left().surface.kind matches EncodedView::Widget { picture, .. } && {
            r.outcome->painted <==> picture.font.0 > 0 && picture.font.1 > 0 && 2 * (
            picture.pixels.0 * num) < 131071 * den && 2 * (picture.pixels.1 * num) < 131071 * den
        },
{
    let encoding = lemma_encoding(r);
    let picture = r.left().surface.kind->picture;
    let (width, height) = (picture.pixels.0 as nat, picture.pixels.1 as nat);
    let across = r.area@.width * picture.font.0 as nat;
    let down = r.area@.height * picture.font.1 as nat;
    lemma_side(width, across, height, down, num, den);
    lemma_side(height, down, width, across, num, den);
}

/// A picture without pixels is drawn if and only if a cell has pixels and 16 bits can count both
/// sides, each cut to the pixels of the cells.
pub proof fn law_empty_widget_is_drawn_if_16_bits_suffice(r: Rendering)
    requires
        r.holds(),
        r.outcome is Drawn,
        r.left().surface.kind matches EncodedView::Widget { picture, .. } && (picture.pixels.0 == 0
            || picture.pixels.1 == 0),
    ensures
        r.left().surface.kind matches EncodedView::Widget { picture, .. } && {
            let across = r.area@.width * picture.font.0 as nat;
            let down = r.area@.height * picture.font.1 as nat;
            r.outcome->painted <==> {
                &&& picture.font.0 > 0
                &&& picture.font.1 > 0
                &&& picture.pixels.0 <= 65535 || across <= 65535
                &&& picture.pixels.1 <= 65535 || down <= 65535
            }
        },
{
    let encoding = lemma_encoding(r);
}

/// The encoder's error is handed on as the cause.
pub proof fn law_cause_is_kept(cause: image::ImageError, area: Rect)
    ensures
        escaped(Err(cause), area) == Err::<Seq<char>, EncodeError>(EncodeError::Png(cause)),
{
}

/// What the laws say of an outcome they say of what the caller gets: the text to be written, the
/// error and whether the cells were painted are those of the value itself.
pub proof fn law_outcomes_are_seen_as_they_are(outcome: Outcome)
    ensures
        outcome matches Outcome::Skipped(error) ==> outcome@ == OutcomeView::Skipped(error),
        outcome matches Outcome::Drawn { transmit: Some(text), heal_error, painted } ==> outcome@
            == (OutcomeView::Drawn { transmit: Some(text@), heal_error, painted }),
        outcome matches Outcome::Drawn { transmit: None, heal_error, painted } ==> outcome@
            == (OutcomeView::Drawn { transmit: None, heal_error, painted }),
{
}

/// What the laws say of a slot they say of its fields.
pub proof fn law_slots_are_seen_as_they_are(slot: Slot)
    ensures
        slot@.surface.url == slot.surface.url@,
        slot@.surface.area == slot.surface.area,
        slot@.surface.last_emitted == slot.surface.last_emitted,
        slot@.surface.last_frame == slot.surface.last_frame,
        slot.surface.kind matches Encoded::Iterm2 { escape } ==> slot@.surface.kind
            == (EncodedView::Iterm2 { escape: escape@ }),
        slot.surface.kind matches Encoded::Widget { protocol, size, scheduled, .. }
            ==> slot@.surface.kind == (EncodedView::Widget {
            protocol: *protocol,
            picture: protocol_picture(*protocol),
            size,
            scheduled,
        }),
        slot.requested_url matches Some(url) ==> slot@.requested_url == Some(url@),
        slot.requested_url is None ==> slot@.requested_url is None,
        slot@.requested_area == slot.requested_area,
        slot@.last_change == slot.last_change,
{
}

} // verus!
