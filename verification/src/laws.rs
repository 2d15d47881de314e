//! What the compositor promises over several requests.
use vstd::prelude::*;
use image::DynamicImage;
use ratatui_image::picker::Picker;
use crate::compositor::{renders, renders_with, CompositorView};
use crate::geometry::Rect;
use crate::graphics::{
    picker_protocol, reserved, same_outside, Cells, DiffOption, ProtocolKind,
};
use crate::slot::{pass_drawn, redrawn, shown, OutcomeView, SlotView, URL_SETTLE_WINDOW};
use crate::surface::{
    encoded_if, encoding_of, prepared, EncodeError, EncodedView, Encoding, SurfaceView,
    TRANSMIT_REFRESH_INTERVAL,
};
use crate::time::{elapsed, Instant};

verus! {

/// A request to a slot: the target, the time, and what preparing the target comes to.
pub ghost struct Request {
    pub url: Seq<char>,
    pub area: Rect,
    pub now: Instant,
    pub fresh: Result<SurfaceView, EncodeError>,
}

impl Request {
    /// Whether a surface that is prepared for this request is one for its target, to be
    /// transmitted now and drawn for the first time in frame `epoch`.
    pub open spec fn well_prepared(self, epoch: u64) -> bool {
        self.fresh matches Ok(surface) ==> {
            &&& surface.url == self.url
            &&& surface.area == self.area
            &&& surface.last_emitted == self.now
            &&& surface.last_frame == epoch
            &&& surface.kind.never_drawn()
        }
    }

    /// Whether the settle window of `slot` is not over when the request comes.
    pub open spec fn hurries(self, slot: SlotView) -> bool {
        ||| !slot.requests(self.url, self.area)
        ||| slot.last_change matches Some(at) && elapsed(at, self.now) < URL_SETTLE_WINDOW
    }
}

/// A slot after a request in frame `epoch`.
pub open spec fn after_request(slot: SlotView, epoch: u64, request: Request) -> SlotView {
    slot.pass(request.url, request.area, epoch, request.now, request.fresh).0
}

/// The outcome of a request in frame `epoch`.
pub open spec fn request_outcome(slot: SlotView, epoch: u64, request: Request) -> OutcomeView {
    slot.pass(request.url, request.area, epoch, request.now, request.fresh).1
}

/// What is drawn for a request in frame `epoch`, as it was before the drawing.
pub open spec fn request_drawn(
    slot: SlotView,
    epoch: u64,
    request: Request,
) -> Option<EncodedView> {
    slot.pass(request.url, request.area, epoch, request.now, request.fresh).2
}

/// A surface after it was drawn for one request in each of the frames that follow `epoch`.
pub open spec fn rendered_over(
    surface: SurfaceView,
    epoch: u64,
    requests: Seq<Request>,
) -> SurfaceView
    decreases requests.len(),
{
    if requests.len() == 0 {
        surface
    } else {
        let next = (epoch + 1) as u64;
        rendered_over(
            surface.rendered(next, requests[0].area),
            next,
            requests.drop_first(),
        )
    }
}

/// A slot after one request in each of the frames that follow `epoch`.
pub open spec fn after_requests(slot: SlotView, epoch: u64, requests: Seq<Request>) -> SlotView
    decreases requests.len(),
{
    if requests.len() == 0 {
        slot
    } else {
        let next = (epoch + 1) as u64;
        after_requests(after_request(slot, next, requests[0]), next, requests.drop_first())
    }
}

/// Whether a request in frame `epoch` makes the slot encode its target.
pub open spec fn encodes(slot: SlotView, epoch: u64, request: Request) -> bool {
    slot.encodes(request.url, request.area, epoch, request.now)
}

/// How many of the requests, one in each of the frames that follow `epoch`, make the slot decide to
/// encode its target.
pub open spec fn encode_count(slot: SlotView, epoch: u64, requests: Seq<Request>) -> nat
    decreases requests.len(),
{
    if requests.len() == 0 {
        0
    } else {
        let next = (epoch + 1) as u64;
        let rest = encode_count(
            after_request(slot, next, requests[0]),
            next,
            requests.drop_first(),
        );
        if encodes(slot, next, requests[0]) {
            1 + rest
        } else {
            rest
        }
    }
}

/// Whether a surface is not due for a refresh at any of the
/// requests, if it is one that is refreshed at all.
pub open spec fn no_refresh_due(surface: SurfaceView, requests: Seq<Request>) -> bool {
    surface.kind.scheduled() ==> forall|i: int|
        0 <= i < requests.len() ==> elapsed(surface.last_emitted, (#[trigger] requests[i]).now)
            < TRANSMIT_REFRESH_INTERVAL
}

/// Whether each of the requests comes before the settle window of the ones before it is over.
pub open spec fn is_burst(slot: SlotView, epoch: u64, requests: Seq<Request>) -> bool
    decreases requests.len(),
{
    requests.len() == 0 || {
        let next = (epoch + 1) as u64;
        &&& requests[0].hurries(slot)
        &&& is_burst(after_request(slot, next, requests[0]), next, requests.drop_first())
    }
}

/// Preparing a surface yields one for the requested target, to be transmitted now and drawn for
/// the first time in this frame.
pub proof fn law_prepared_for_the_target(
    picker: Picker,
    url: Seq<char>,
    img: DynamicImage,
    area: Rect,
    epoch: u64,
    now: Instant,
    encoding: Encoding,
)
    requires
        encoding_of(picker, img, encoding),
    ensures
        (Request {
            url,
            area,
            now,
            fresh: prepared(picker, url, img, area, epoch, now, encoding),
        }).well_prepared(epoch),
{
}

/// Exactly the grid-anchored surfaces, those of kitty and iTerm2, are scheduled for refreshes.
pub proof fn law_scheduled_protocols(
    picker: Picker,
    url: Seq<char>,
    img: DynamicImage,
    area: Rect,
    epoch: u64,
    now: Instant,
    encoding: Encoding,
)
    ensures
        prepared(picker, url, img, area, epoch, now, encoding) matches Ok(surface) ==> (
        surface.kind.scheduled() <==> picker_protocol(picker) == ProtocolKind::Kitty
            || picker_protocol(picker) == ProtocolKind::Iterm2),
{
}

/// A freshly observed target defers, however long the slot was quiet before: the surface is drawn
/// as it is, and the target is recorded with the time of the change. Healing aside, no surface is
/// prepared and nothing is handed out to be transmitted.
pub proof fn law_new_target_defers(slot: SlotView, epoch: u64, request: Request)
    requires
        !slot.requests(request.url, request.area),
        !slot.surface.needs_heal(epoch, request.now),
    ensures
        after_request(slot, epoch, request) == (SlotView {
            surface: slot.surface.rendered(epoch, request.area),
            requested_url: Some(request.url),
            requested_area: Some(request.area),
            last_change: Some(request.now),
        }),
        request_outcome(slot, epoch, request) == redrawn(slot.surface, request.area, None),
        request_drawn(slot, epoch, request) == Some(slot.surface.kind),
{
}

/// Repeating the last request does not restart the settle window.
pub proof fn law_repeats_do_not_restart_the_window(slot: SlotView, epoch: u64, request: Request)
    requires
        slot.requests(request.url, request.area),
    ensures
        after_request(slot, epoch, request).requests(request.url, request.area),
        after_request(slot, epoch, request).last_change == slot.last_change,
{
}

/// A burst of requests, one per frame, never makes the slot encode, whatever the targets: the
/// surface is the one that was there before, drawn once for every request, and the last target is
/// the one that is kept for later. This holds as long as the surface does not fall due for a
/// refresh.
pub proof fn law_burst_keeps_the_surface(slot: SlotView, epoch: u64, requests: Seq<Request>)
    requires
        slot.surface.last_frame == epoch,
        epoch + requests.len() <= u64::MAX,
        is_burst(slot, epoch, requests),
        no_refresh_due(slot.surface, requests),
    ensures
        after_requests(slot, epoch, requests).surface == rendered_over(
            slot.surface,
            epoch,
            requests,
        ),
        after_requests(slot, epoch, requests).surface.same_surface(slot.surface),
        after_requests(slot, epoch, requests).surface.last_frame == epoch + requests.len(),
        requests.len() > 0 ==> after_requests(slot, epoch, requests).requests(
            requests.last().url,
            requests.last().area,
        ),
        requests.len() > 0 ==> after_requests(slot, epoch, requests).last_change is Some,
        encode_count(slot, epoch, requests) == 0,
    decreases requests.len(),
{
    if requests.len() > 0 {
        let next = (epoch + 1) as u64;
        let rest = requests.drop_first();
        let moved = after_request(slot, next, requests[0]);
        assert(elapsed(requests[0].now, requests[0].now) == 0);
        assert(moved.surface == slot.surface.rendered(next, requests[0].area));
        assert forall|i: int| slot.surface.kind.scheduled() && 0 <= i < rest.len() implies elapsed(
            moved.surface.last_emitted,
            (#[trigger] rest[i]).now,
        ) < TRANSMIT_REFRESH_INTERVAL by {
            assert(rest[i] == requests[i + 1]);
        }
        law_burst_keeps_the_surface(moved, next, rest);
        if rest.len() > 0 {
            assert(rest.last() == requests.last());
        }
    }
}

/// A burst settles on its latest target: when that target is requested again in the next frame and
/// the settle window is over, it is what the slot shows, if it can be encoded.
pub proof fn law_burst_settles_on_the_latest(
    slot: SlotView,
    epoch: u64,
    requests: Seq<Request>,
    quiet: Request,
)
    requires
        slot.surface.last_frame == epoch,
        epoch + requests.len() < u64::MAX,
        requests.len() > 0,
        is_burst(slot, epoch, requests),
        no_refresh_due(slot.surface, requests),
        quiet.url == requests.last().url,
        quiet.area == requests.last().area,
        after_requests(slot, epoch, requests).settled(quiet.now),
        quiet.well_prepared((epoch + requests.len() + 1) as u64),
        quiet.fresh is Ok,
    ensures
        after_requests(slot, epoch, requests).shows(slot.surface.url, slot.surface.area),
        after_request(
            after_requests(slot, epoch, requests),
            (epoch + requests.len() + 1) as u64,
            quiet,
        ).shows(quiet.url, quiet.area),
{
    law_burst_keeps_the_surface(slot, epoch, requests);
}

/// Once the requests have been quiet for the settle window, the next one for the same target puts
/// it in place of the surface and draws it, if it can be encoded; the escape of an inline image is
/// handed out to be transmitted.
pub proof fn law_settled_target_is_adopted(slot: SlotView, epoch: u64, request: Request)
    requires
        slot.requests(request.url, request.area),
        slot.settled(request.now),
        !slot.shows(request.url, request.area),
        request.well_prepared(epoch),
        request.fresh is Ok,
    ensures
        after_request(slot, epoch, request) == (SlotView {
            surface: request.fresh->Ok_0.rendered(epoch, request.area),
            ..slot
        }),
        after_request(slot, epoch, request).shows(request.url, request.area),
        request_outcome(slot, epoch, request) == shown(request.fresh->Ok_0, request.area),
        request_drawn(slot, epoch, request) == Some(request.fresh->Ok_0.kind),
{
}

/// A target that is shown is not prepared again while it is requested in every frame and is not
/// due for a refresh: the surface that is there is drawn once more.
pub proof fn law_shown_target_is_kept(slot: SlotView, epoch: u64, request: Request)
    requires
        slot.shows(request.url, request.area),
        slot.surface.last_frame + 1 == epoch,
        slot.surface.kind.scheduled() ==> elapsed(slot.surface.last_emitted, request.now)
            < TRANSMIT_REFRESH_INTERVAL,
    ensures
        after_request(slot, epoch, request).surface == slot.surface.rendered(epoch, request.area),
        request_outcome(slot, epoch, request) == redrawn(slot.surface, request.area, None),
        request_drawn(slot, epoch, request) == Some(slot.surface.kind),
{
}

/// A target that is shown and requested in frame after frame never makes the slot encode again, as
/// long as it does not fall due for a refresh.
pub proof fn law_shown_target_stays(slot: SlotView, epoch: u64, requests: Seq<Request>)
    requires
        slot.surface.last_frame == epoch,
        epoch + requests.len() <= u64::MAX,
        forall|i: int|
            0 <= i < requests.len() ==> slot.shows((#[trigger] requests[i]).url, requests[i].area),
        no_refresh_due(slot.surface, requests),
    ensures
        after_requests(slot, epoch, requests).surface == rendered_over(
            slot.surface,
            epoch,
            requests,
        ),
        after_requests(slot, epoch, requests).surface.same_surface(slot.surface),
        encode_count(slot, epoch, requests) == 0,
    decreases requests.len(),
{
    if requests.len() > 0 {
        let next = (epoch + 1) as u64;
        let rest = requests.drop_first();
        let moved = after_request(slot, next, requests[0]);
        assert(slot.shows(requests[0].url, requests[0].area));
        assert(moved.surface == slot.surface.rendered(next, requests[0].area));
        assert forall|i: int| 0 <= i < rest.len() implies moved.shows(
            (#[trigger] rest[i]).url,
            rest[i].area,
        ) by {
            assert(rest[i] == requests[i + 1]);
        }
        assert forall|i: int| slot.surface.kind.scheduled() && 0 <= i < rest.len() implies elapsed(
            moved.surface.last_emitted,
            (#[trigger] rest[i]).now,
        ) < TRANSMIT_REFRESH_INTERVAL by {
            assert(rest[i] == requests[i + 1]);
        }
        law_shown_target_stays(moved, next, rest);
    }
}

/// A stream of requests can be cut in two.
proof fn lemma_requests_concatenate(
    slot: SlotView,
    epoch: u64,
    first: Seq<Request>,
    second: Seq<Request>,
)
    requires
        epoch + first.len() + second.len() <= u64::MAX,
    ensures
        ({
            let between = after_requests(slot, epoch, first);
            let later = (epoch + first.len()) as u64;
            &&& after_requests(slot, epoch, first + second) == after_requests(
                between,
                later,
                second,
            )
            &&& encode_count(slot, epoch, first + second) == encode_count(slot, epoch, first)
                + encode_count(between, later, second)
        }),
    decreases first.len(),
{
    if first.len() == 0 {
        assert(first + second =~= second);
    } else {
        let next = (epoch + 1) as u64;
        assert((first + second).drop_first() =~= first.drop_first() + second);
        lemma_requests_concatenate(
            after_request(slot, next, first[0]),
            next,
            first.drop_first(),
            second,
        );
    }
}

/// A burst, the silence after it and any number of repeats of its last target make the slot decide
/// exactly once to encode, and that carries the last target: it does not during the burst, does
/// when it has settled, and does not afterwards. What is counted are the decisions; [`renders`]
/// says that what shows of a rendering comes from one encoding if it decides to encode, and from
/// none if not. The target is taken to be another than the one shown before, one that can be
/// encoded, and refreshes are taken not to fall due meanwhile.
pub proof fn law_one_encode_per_burst(
    slot: SlotView,
    epoch: u64,
    requests: Seq<Request>,
    quiet: Request,
    repeats: Seq<Request>,
)
    requires
        slot.surface.last_frame == epoch,
        epoch + requests.len() + 1 + repeats.len() <= u64::MAX,
        requests.len() > 0,
        is_burst(slot, epoch, requests),
        no_refresh_due(slot.surface, requests),
        quiet.url == requests.last().url,
        quiet.area == requests.last().area,
        !slot.shows(quiet.url, quiet.area),
        after_requests(slot, epoch, requests).settled(quiet.now),
        quiet.well_prepared((epoch + requests.len() + 1) as u64),
        quiet.fresh is Ok,
        forall|i: int|
            0 <= i < repeats.len() ==> (#[trigger] repeats[i]).url == quiet.url && repeats[i].area
                == quiet.area,
        no_refresh_due(quiet.fresh->Ok_0, repeats),
    ensures
        encode_count(slot, epoch, requests + seq![quiet] + repeats) == 1,
        after_requests(slot, epoch, requests + seq![quiet] + repeats).surface == rendered_over(
            quiet.fresh->Ok_0.rendered((epoch + requests.len() + 1) as u64, quiet.area),
            (epoch + requests.len() + 1) as u64,
            repeats,
        ),
        after_requests(slot, epoch, requests + seq![quiet] + repeats).surface.same_surface(
            quiet.fresh->Ok_0,
        ),
{
    let burst_end = (epoch + requests.len()) as u64;
    let next = (burst_end + 1) as u64;
    let deferred = after_requests(slot, epoch, requests);
    law_burst_keeps_the_surface(slot, epoch, requests);
    law_settled_target_is_adopted(deferred, next, quiet);
    let adopted = after_request(deferred, next, quiet);
    assert(encodes(deferred, next, quiet));
    assert(seq![quiet].drop_first() =~= Seq::empty());
    assert(encode_count(adopted, next, seq![quiet].drop_first()) == 0);
    assert(encode_count(deferred, burst_end, seq![quiet]) == 1);
    assert(after_requests(adopted, next, seq![quiet].drop_first()) == adopted);
    assert(after_requests(deferred, burst_end, seq![quiet]) == adopted);
    law_shown_target_stays(adopted, next, repeats);
    lemma_requests_concatenate(slot, epoch, requests, seq![quiet]);
    lemma_requests_concatenate(slot, epoch, requests + seq![quiet], repeats);
}

/// Surfaces that are painted as glyphs are redrawn with the frame: while they are shown and
/// requested in every frame they are never prepared again, however much time passes.
pub proof fn law_glyph_surfaces_need_no_refresh(slot: SlotView, epoch: u64, request: Request)
    requires
        !slot.surface.kind.scheduled(),
        slot.shows(request.url, request.area),
        slot.surface.last_frame + 1 == epoch,
    ensures
        after_request(slot, epoch, request).surface == slot.surface.rendered(epoch, request.area),
        request_drawn(slot, epoch, request) == Some(slot.surface.kind),
{
}

/// A surface that skipped one or more frames is healed the next time it renders, whatever the cause
/// of the gap was: the target is prepared anew and drawn. The escape of an inline image is handed
/// out to be transmitted. A widget is drawn with a protocol that was never drawn before.
pub proof fn law_skipped_frames_heal(slot: SlotView, epoch: u64, request: Request)
    requires
        slot.surface.last_frame + 1 < epoch,
        request.well_prepared(epoch),
        request.fresh is Ok,
    ensures
        after_request(slot, epoch, request).surface == request.fresh->Ok_0.rendered(
            epoch,
            request.area,
        ),
        request_outcome(slot, epoch, request) == shown(request.fresh->Ok_0, request.area),
        request_drawn(slot, epoch, request) == Some(request.fresh->Ok_0.kind),
        request.fresh->Ok_0.kind.never_drawn(),
{
}

/// The backstop: a grid-anchored surface that was transmitted the refresh interval ago or earlier
/// is prepared anew when it renders, even if it rendered in every frame. The escape of an inline
/// image is handed out to be transmitted. A kitty picture is drawn with a protocol that was never
/// drawn before.
pub proof fn law_backstop_transmits(slot: SlotView, epoch: u64, request: Request)
    requires
        slot.surface.kind.scheduled(),
        elapsed(slot.surface.last_emitted, request.now) >= TRANSMIT_REFRESH_INTERVAL,
        request.well_prepared(epoch),
        request.fresh is Ok,
    ensures
        after_request(slot, epoch, request).surface == request.fresh->Ok_0.rendered(
            epoch,
            request.area,
        ),
        request_outcome(slot, epoch, request) == shown(request.fresh->Ok_0, request.area),
        request_drawn(slot, epoch, request) == Some(request.fresh->Ok_0.kind),
        request.fresh->Ok_0.kind.never_drawn(),
{
}

/// After a request whose target could be encoded, no grid-anchored surface is left that was
/// transmitted the refresh interval ago or earlier, and no surface that missed a frame.
pub proof fn law_no_stale_surface_is_left(slot: SlotView, epoch: u64, request: Request)
    requires
        request.well_prepared(epoch),
        request.fresh is Ok,
    ensures
        !after_request(slot, epoch, request).surface.needs_heal(epoch, request.now),
        after_request(slot, epoch, request).surface.last_frame == epoch,
{
}

/// The time of the last transmission only changes when a surface is transmitted: what is drawn
/// either is the surface that was there before, with nothing to transmit, or the freshly prepared
/// one, for the first time and with its escape if it is an inline image.
pub proof fn law_emission_times_are_true(slot: SlotView, epoch: u64, request: Request)
    requires
        request_outcome(slot, epoch, request) is Drawn,
    ensures
        ({
            let surface = after_request(slot, epoch, request).surface;
            let transmit = request_outcome(slot, epoch, request)->transmit;
            let drawn = request_drawn(slot, epoch, request);
            ||| {
                &&& surface == slot.surface.rendered(epoch, request.area)
                &&& surface.last_emitted == slot.surface.last_emitted
                &&& drawn == Some(slot.surface.kind)
                &&& transmit is None
            }
            ||| {
                &&& request.fresh matches Ok(fresh)
                &&& surface == fresh.rendered(epoch, request.area)
                &&& drawn == Some(fresh.kind)
                &&& transmit == fresh.kind.transmission(request.area)
            }
        }),
{
}

/// A target that cannot be encoded leaves the surface in place.
pub proof fn law_failure_keeps_the_surface(slot: SlotView, epoch: u64, request: Request)
    requires
        request.fresh is Err,
    ensures
        ({
            let surface = after_request(slot, epoch, request).surface;
            surface == slot.surface || surface == slot.surface.rendered(epoch, request.area)
        }),
{
}

/// The first sighting of a slot is prepared and drawn at once, if it can be encoded; the escape of
/// an inline image is handed out to be transmitted.
pub proof fn law_first_sighting_is_shown(this: CompositorView, id: Seq<char>, request: Request)
    requires
        !this.slots.dom().contains(id),
        request.fresh is Ok,
    ensures
        ({
            let (after, outcome, drawn) = this.pass(
                id,
                request.url,
                request.area,
                request.now,
                request.fresh,
            );
            &&& after.slots.dom().contains(id)
            &&& after.slots[id].surface == request.fresh->Ok_0.rendered(this.epoch, request.area)
            &&& after.slots[id].requests(request.url, request.area)
            &&& outcome == shown(request.fresh->Ok_0, request.area)
            &&& drawn == Some(request.fresh->Ok_0.kind)
        }),
{
}

/// A widget that was just prepared goes out with its drawing: it has its picture encoded for the
/// cells that it is drawn on, which for kitty puts the data into them.
pub proof fn law_new_widget_goes_out(slot: SlotView, epoch: u64, request: Request)
    requires
        encodes(slot, epoch, request),
        request.well_prepared(epoch),
        request.fresh matches Ok(fresh) && fresh.kind matches EncodedView::Widget { picture, .. }
            && picture.pixels.0 > 0 && picture.pixels.1 > 0,
        1 <= request.area@.width <= u16::MAX,
        1 <= request.area@.height <= u16::MAX,
    ensures
        request_drawn(slot, epoch, request) matches Some(drawn) && drawn.encodes_at(request.area),
{
}

/// A widget that is kept sends nothing: while the number of cells that it is asked for stays the
/// same, it has no picture to encode when it is drawn again. It must be one that can be drawn
/// there; sixel pictures, which are not sent ahead of their drawing, are left out.
pub proof fn law_kept_widget_sends_nothing(slot: SlotView, epoch: u64, request: Request)
    requires
        slot.ready(),
        !encodes(slot, epoch, request),
        slot.requested_area matches Some(last) && last@.size() == request.area@.size()
            && last@.has_cells() && slot.surface.kind.paintable(last),
        slot.surface.kind matches EncodedView::Widget { picture, .. } ==> picture.kind
            != ProtocolKind::Sixel,
    ensures
        request_outcome(slot, epoch, request)->transmit is None,
        request_drawn(slot, epoch, request) matches Some(drawn) && drawn == slot.surface.kind
            && !drawn.encodes_at(request.area),
{
}

/// Rendering a slot that was drawn before is one request to it, for which the target, if it is to
/// be encoded, is prepared as one for this time and frame. The slot is ready for the laws of such
/// a request, and what is drawn for it is what reaches the cells.
pub proof fn law_rendering_is_one_request(
    this: CompositorView,
    picker: Picker,
    id: Seq<char>,
    url: Seq<char>,
    img: DynamicImage,
    area: Rect,
    now: Instant,
    after: CompositorView,
    outcome: OutcomeView,
    before: Cells,
    painted: Cells,
)
    requires
        renders(this, picker, id, url, img, area, now, after, outcome, before, painted),
        this.slots.dom().contains(id),
    ensures
        this.slots[id].ready(),
        exists|request: Request|
            #![trigger after_request(this.slots[id], this.epoch, request)]
            {
                &&& request.url == url
                &&& request.area == area
                &&& request.now == now
                &&& encodes(this.slots[id], this.epoch, request) ==> request.well_prepared(
                    this.epoch,
                )
                &&& after.slots[id] == after_request(this.slots[id], this.epoch, request)
                &&& outcome == request_outcome(this.slots[id], this.epoch, request)
                &&& pass_drawn(
                    request_drawn(this.slots[id], this.epoch, request),
                    area,
                    before,
                    painted,
                )
            },
{
    let encoding = choose|encoding: Encoding| #[trigger]
        encoded_if(this.encodes(id, url, area, now), picker, img, encoding) && renders_with(
            this,
            picker,
            id,
            url,
            img,
            area,
            now,
            encoding,
            after,
            outcome,
            before,
            painted,
        );
    let fresh = prepared(picker, url, img, area, this.epoch, now, encoding);
    let request = Request { url, area, now, fresh };
    if encodes(this.slots[id], this.epoch, request) {
        law_prepared_for_the_target(picker, url, img, area, this.epoch, now, encoding);
    }
    assert(after.slots[id] == after_request(this.slots[id], this.epoch, request));
}

/// After every rendering the slot, if there is one, has recorded the request, and it shows the
/// target unless encoding it failed or the target changed within the settle window.
pub proof fn law_target_is_shown_or_deferred(
    this: CompositorView,
    picker: Picker,
    id: Seq<char>,
    url: Seq<char>,
    img: DynamicImage,
    area: Rect,
    now: Instant,
    after: CompositorView,
    outcome: OutcomeView,
    before: Cells,
    painted: Cells,
)
    requires
        renders(this, picker, id, url, img, area, now, after, outcome, before, painted),
        after.slots.dom().contains(id),
    ensures
        after.slots[id].requests(url, area),
        ({
            ||| outcome is Skipped
            ||| outcome matches OutcomeView::Drawn { heal_error, .. } && heal_error is Some
            ||| after.slots[id].shows(url, area)
            ||| after.slots[id].last_change matches Some(at) && elapsed(at, now)
                < URL_SETTLE_WINDOW
        }),
{
}

/// One encoding carries a rendering. If the target is encoded, the surface that is kept, the cells
/// and what is to be transmitted all come from the same encoding of the image, which was drawn
/// once and never before. If it is not encoded, the surface that was there before is drawn once
/// more.
pub proof fn law_one_encoding_carries_a_rendering(
    this: CompositorView,
    picker: Picker,
    id: Seq<char>,
    url: Seq<char>,
    img: DynamicImage,
    area: Rect,
    now: Instant,
    after: CompositorView,
    outcome: OutcomeView,
    before: Cells,
    painted: Cells,
)
    requires
        renders(this, picker, id, url, img, area, now, after, outcome, before, painted),
    ensures
        !this.encodes(id, url, area, now) ==> {
            &&& after.slots[id].surface == this.slots[id].surface.rendered(this.epoch, area)
            &&& outcome == redrawn(this.slots[id].surface, area, None)
            &&& this.slots[id].surface.kind.drawn(area, before, painted)
        },
        this.encodes(id, url, area, now) && outcome is Drawn && outcome->heal_error is None
            ==> exists|encoding: Encoding|
            #![trigger encoding_of(picker, img, encoding)]
            {
                &&& encoding_of(picker, img, encoding)
                &&& prepared(picker, url, img, area, this.epoch, now, encoding) matches Ok(fresh)
                &&& fresh.kind.never_drawn()
                &&& after.slots[id].surface == fresh.rendered(this.epoch, area)
                &&& outcome == shown(fresh, area)
                &&& fresh.kind.drawn(area, before, painted)
            },
{
    let made = this.encodes(id, url, area, now);
    let encoding = choose|encoding: Encoding| #[trigger]
        encoded_if(made, picker, img, encoding) && renders_with(
            this,
            picker,
            id,
            url,
            img,
            area,
            now,
            encoding,
            after,
            outcome,
            before,
            painted,
        );
    if made {
        assert(encoding_of(picker, img, encoding));
        law_prepared_for_the_target(picker, url, img, area, this.epoch, now, encoding);
    }
}

/// Slots do not disturb each other: rendering one leaves all others and the frame counter as they
/// were, and takes none away.
pub proof fn law_slots_are_independent(
    this: CompositorView,
    picker: Picker,
    id: Seq<char>,
    url: Seq<char>,
    img: DynamicImage,
    area: Rect,
    now: Instant,
    after: CompositorView,
    outcome: OutcomeView,
    before: Cells,
    painted: Cells,
    other: Seq<char>,
)
    requires
        renders(this, picker, id, url, img, area, now, after, outcome, before, painted),
        other != id,
    ensures
        after.epoch == this.epoch,
        after.slots.dom().contains(other) == this.slots.dom().contains(other),
        this.slots.dom().contains(other) ==> after.slots[other] == this.slots[other],
        this.slots.dom().contains(id) ==> after.slots.dom().contains(id),
{
}

/// Rendering touches no cell outside the area that it was given.
pub proof fn law_cells_outside_are_untouched(
    this: CompositorView,
    picker: Picker,
    id: Seq<char>,
    url: Seq<char>,
    img: DynamicImage,
    area: Rect,
    now: Instant,
    after: CompositorView,
    outcome: OutcomeView,
    before: Cells,
    painted: Cells,
)
    requires
        renders(this, picker, id, url, img, area, now, after, outcome, before, painted),
    ensures
        same_outside(before, painted, area),
{
    assert(reserved(before, area).dom() =~= before.dom());
}

/// The cells that are left alone when the screen is brought up to date.
pub open spec fn skipped(cells: Cells) -> Set<(u16, u16)> {
    Set::new(|at: (u16, u16)| cells.dom().contains(at) && cells[at].diff == DiffOption::Skip)
}

/// The cells of `area` that there are.
pub open spec fn cells_of(cells: Cells, area: Rect) -> Set<(u16, u16)> {
    Set::new(
        |at: (u16, u16)| cells.dom().contains(at) && area@.covers(at.0 as int, at.1 as int),
    )
}

/// Reserving an area adds exactly the cells of the area to those that are left alone. No cell
/// comes or goes, none outside the area changes at all, and those of the area keep their text and
/// style.
pub proof fn law_reserving_marks_the_area(cells: Cells, area: Rect)
    ensures
        skipped(reserved(cells, area)) == skipped(cells).union(cells_of(cells, area)),
        same_outside(cells, reserved(cells, area), area),
        forall|at: (u16, u16)|
            #![trigger reserved(cells, area)[at]]
            cells.dom().contains(at) ==> reserved(cells, area)[at].symbol == cells[at].symbol
                && reserved(cells, area)[at].style == cells[at].style
                && reserved(cells, area)[at].skip == cells[at].skip,
{
    assert(reserved(cells, area).dom() =~= cells.dom());
    assert(skipped(reserved(cells, area)) =~= skipped(cells).union(cells_of(cells, area)));
}

/// Two areas can be reserved in either order, and the cells of both are left alone.
pub proof fn law_reserving_commutes(cells: Cells, first: Rect, second: Rect)
    ensures
        reserved(reserved(cells, first), second) == reserved(reserved(cells, second), first),
        skipped(reserved(reserved(cells, first), second)) == skipped(cells).union(
            cells_of(cells, first).union(cells_of(cells, second)),
        ),
{
    assert(reserved(reserved(cells, first), second) =~= reserved(
        reserved(cells, second),
        first,
    ));
    assert(skipped(reserved(reserved(cells, first), second)) =~= skipped(cells).union(
        cells_of(cells, first).union(cells_of(cells, second)),
    ));
}

/// Reserving an area without cells changes nothing.
pub proof fn law_empty_area_reserves_nothing(cells: Cells, area: Rect)
    requires
        area@.width == 0 || area@.height == 0,
    ensures
        reserved(cells, area) == cells,
{
    assert(reserved(cells, area) =~= cells);
}

/// Reserving an area twice is reserving it once.
pub proof fn law_reserving_is_idempotent(cells: Cells, area: Rect)
    ensures
        reserved(reserved(cells, area), area) == reserved(cells, area),
{
    assert(reserved(reserved(cells, area), area) =~= reserved(cells, area));
}

} // verus!
