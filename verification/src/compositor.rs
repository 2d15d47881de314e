//! The image compositor: sole owner of terminal-graphics surfaces.
//!
//! Every cover image goes through exactly one slot here. The compositor decides when a surface
//! must be encoded and transmitted again, because terminal graphics protocols are hostile to
//! naive immediate-mode rendering: a widget that paints over the cells of an image makes the
//! terminal drop it for good, and so does a screen clear from outside.
//!
//! A surface that skipped one or more frames is healed with a transmission the next time it
//! renders. Surfaces whose pixels can vanish are also transmitted again once
//! [`TRANSMIT_REFRESH_INTERVAL`](crate::surface::TRANSMIT_REFRESH_INTERVAL) has passed since
//! their last transmission.
//!
//! A change of target within [`URL_SETTLE_WINDOW`](crate::slot::URL_SETTLE_WINDOW) of the
//! previous change is only recorded; the previous surface keeps painting until the requests go
//! quiet, and one encode and transmission carries the final selection.
use vstd::prelude::*;
use vstd::string::*;
use image::DynamicImage;
use ratatui::Frame;
use ratatui_image::picker::Picker;
use crate::geometry::Rect;
use crate::graphics::{frame_cells, Cells};
use crate::slot::{pass_drawn, shown, Outcome, OutcomeView, Slot, SlotView};
use crate::surface::{
    encoded_if, encoding_of, prepared, surface_view, EncodeError, EncodedView, Encoding, Surface,
    SurfaceView,
};
use crate::text::{decimal, push_decimal};
use crate::time::{Clock, Instant};

verus! {

/// A slot under the name that its caller gave it.
struct Entry {
    id: String,
    slot: Slot,
}

/// Cache of prepared cover surfaces keyed by stable caller-declared slots.
pub struct ImageCompositor {
    entries: Vec<Entry>,
    /// Frame counter, bumped once per UI pass by [`ImageCompositor::begin_frame`].
    epoch: u64,
    clock: Clock,
}

/// What a compositor holds: the frame it is in, and a slot for every name that it has drawn.
pub ghost struct CompositorView {
    pub epoch: u64,
    pub slots: Map<Seq<char>, SlotView>,
}

impl CompositorView {
    /// Whether a request to the slot `id` makes it encode its target. A slot that was never drawn
    /// does so at once.
    pub open spec fn encodes(
        self,
        id: Seq<char>,
        url: Seq<char>,
        area: Rect,
        now: Instant,
    ) -> bool {
        self.slots.dom().contains(id) ==> self.slots[id].encodes(url, area, self.epoch, now)
    }

    /// The compositor after the slot `id` was asked to show `url` at `area` at `now`, the outcome
    /// of that, and what was drawn for it, as it was before the drawing. `fresh` is what preparing
    /// the target comes to, should it be prepared.
    pub open spec fn pass(
        self,
        id: Seq<char>,
        url: Seq<char>,
        area: Rect,
        now: Instant,
        fresh: Result<SurfaceView, EncodeError>,
    ) -> (CompositorView, OutcomeView, Option<EncodedView>) {
        if self.slots.dom().contains(id) {
            let (slot, outcome, drawn) = self.slots[id].pass(url, area, self.epoch, now, fresh);
            (CompositorView { slots: self.slots.insert(id, slot), ..self }, outcome, drawn)
        } else {
            match fresh {
                Ok(surface) => {
                    let slot = SlotView::first(
                        surface.rendered(self.epoch, area),
                        url,
                        area,
                        now,
                    );
                    (
                        CompositorView { slots: self.slots.insert(id, slot), ..self },
                        shown(surface, area),
                        Some(surface.kind),
                    )
                },
                Err(error) => (self, OutcomeView::Skipped(error), None),
            }
        }
    }

    /// Whether every slot has encoded its picture for the area that it was last asked for.
    pub open spec fn ready(self) -> bool {
        forall|id: Seq<char>|
            self.slots.dom().contains(id) ==> (#[trigger] self.slots[id]).ready()
    }
}

/// Whether rendering at `now` can lead from `this` to `after` with `outcome`, and turn the cells
/// `before` into `painted`: one pass, in which a single encoding of the target is used if the pass
/// asks for one, and none if not. An encoding that is made and thrown away unused leaves no trace
/// in any of this, and nothing is said of it.
pub open spec fn renders(
    this: CompositorView,
    picker: Picker,
    id: Seq<char>,
    url: Seq<char>,
    img: DynamicImage,
    area: Rect,
    now: Instant,
    after: CompositorView,
    outcome: OutcomeView,
    before: Cells,
    painted: Cells,
) -> bool {
    exists|encoding: Encoding| #[trigger]
        encoded_if(this.encodes(id, url, area, now), picker, img, encoding) && renders_with(
            this,
            picker,
            id,
            url,
            img,
            area,
            now,
            encoding,
            after,
            outcome,
            before,
            painted,
        )
}

/// The pass of [`renders`] for what encoding the target comes to.
pub open spec fn renders_with(
    this: CompositorView,
    picker: Picker,
    id: Seq<char>,
    url: Seq<char>,
    img: DynamicImage,
    area: Rect,
    now: Instant,
    encoding: Encoding,
    after: CompositorView,
    outcome: OutcomeView,
    before: Cells,
    painted: Cells,
) -> bool {
    let fresh = prepared(picker, url, img, area, this.epoch, now, encoding);
    let (next, result, drawn) = this.pass(id, url, area, now, fresh);
    &&& this.ready()
    &&& after.ready()
    &&& after == next
    &&& outcome == result
    &&& pass_drawn(drawn, area, before, painted)
}

spec fn has_id(entries: Seq<Entry>, id: Seq<char>) -> bool {
    exists|i: int| 0 <= i < entries.len() && #[trigger] entries[i].id@ == id
}

spec fn index_of(entries: Seq<Entry>, id: Seq<char>) -> int {
    choose|i: int| 0 <= i < entries.len() && #[trigger] entries[i].id@ == id
}

spec fn distinct_ids(entries: Seq<Entry>) -> bool {
    forall|i: int, j: int|
        0 <= i < j < entries.len() ==> #[trigger] entries[i].id@ != #[trigger] entries[j].id@
}

spec fn slots_of(entries: Seq<Entry>) -> Map<Seq<char>, SlotView> {
    Map::new(
        |id: Seq<char>| has_id(entries, id),
        |id: Seq<char>| entries[index_of(entries, id)].slot@,
    )
}

/// An entry is found under its own name.
proof fn lemma_slot_of_entry(entries: Seq<Entry>, i: int)
    requires
        distinct_ids(entries),
        0 <= i < entries.len(),
    ensures
        slots_of(entries).dom().contains(entries[i].id@),
        slots_of(entries)[entries[i].id@] == entries[i].slot@,
{
    let id = entries[i].id@;
    assert(has_id(entries, id));
    let j = index_of(entries, id);
    assert(0 <= j < entries.len() && entries[j].id@ == id);
    assert(i == j);
}

/// Replacing the slot of an entry replaces it under the entry's name.
proof fn lemma_slots_after_update(before: Seq<Entry>, after: Seq<Entry>, i: int)
    requires
        distinct_ids(before),
        0 <= i < before.len(),
        after.len() == before.len(),
        forall|j: int| 0 <= j < before.len() && j != i ==> after[j] == before[j],
        after[i].id@ == before[i].id@,
    ensures
        distinct_ids(after),
        slots_of(after) == slots_of(before).insert(before[i].id@, after[i].slot@),
{
    assert forall|j: int| 0 <= j < before.len() implies after[j].id@ == before[j].id@ by {}
    assert(distinct_ids(after));
    lemma_slot_of_entry(after, i);
    let left = slots_of(after);
    let right = slots_of(before).insert(before[i].id@, after[i].slot@);
    assert forall|id: Seq<char>| left.dom().contains(id) == right.dom().contains(id) by {
        if has_id(before, id) {
            let j = index_of(before, id);
            assert(after[j].id@ == id);
        }
        if has_id(after, id) {
            let j = index_of(after, id);
            assert(before[j].id@ == id);
        }
    }
    assert forall|id: Seq<char>| left.dom().contains(id) implies left[id] == right[id] by {
        let j = index_of(after, id);
        assert(after[j].id@ == id);
        if j != i {
            lemma_slot_of_entry(before, j);
            lemma_slot_of_entry(after, j);
        }
    }
    assert(left =~= right);
}

/// An entry with a new name adds its slot under that name.
proof fn lemma_slots_after_push(before: Seq<Entry>, entry: Entry)
    requires
        distinct_ids(before),
        !has_id(before, entry.id@),
    ensures
        distinct_ids(before.push(entry)),
        slots_of(before.push(entry)) == slots_of(before).insert(entry.id@, entry.slot@),
{
    let after = before.push(entry);
    assert forall|i: int, j: int| 0 <= i < j < after.len() implies #[trigger] after[i].id@
        != #[trigger] after[j].id@ by {
        assert(after[i] == before[i]);
        assert(has_id(before, after[i].id@));
    }
    lemma_slot_of_entry(after, before.len() as int);
    let left = slots_of(after);
    let right = slots_of(before).insert(entry.id@, entry.slot@);
    assert forall|id: Seq<char>| left.dom().contains(id) == right.dom().contains(id) by {
        if has_id(before, id) {
            let j = index_of(before, id);
            assert(after[j].id@ == id);
        }
        if has_id(after, id) && id != entry.id@ {
            let j = index_of(after, id);
            assert(before[j].id@ == id);
        }
    }
    assert forall|id: Seq<char>| left.dom().contains(id) implies left[id] == right[id] by {
        let j = index_of(after, id);
        assert(after[j].id@ == id);
        if j < before.len() {
            lemma_slot_of_entry(before, j);
            lemma_slot_of_entry(after, j);
        }
    }
    assert(left =~= right);
}

/// Consistent entries make slots that are ready.
proof fn lemma_ready(entries: Seq<Entry>)
    requires
        forall|i: int| 0 <= i < entries.len() ==> (#[trigger] entries[i]).slot.wf(),
    ensures
        forall|id: Seq<char>|
            slots_of(entries).dom().contains(id) ==> (#[trigger] slots_of(entries)[id]).ready(),
{
    assert forall|id: Seq<char>| slots_of(entries).dom().contains(id) implies (
    #[trigger] slots_of(entries)[id]).ready() by {
        let i = index_of(entries, id);
        assert(entries[i].slot.wf());
    }
}

/// Entries with distinct names make as many slots.
proof fn lemma_slot_count(entries: Seq<Entry>)
    requires
        distinct_ids(entries),
    ensures
        slots_of(entries).dom().finite(),
        slots_of(entries).dom().len() == entries.len(),
    decreases entries.len(),
{
    if entries.len() == 0 {
        assert(slots_of(entries).dom() =~= Set::empty());
    } else {
        let rest = entries.drop_last();
        assert(distinct_ids(rest));
        lemma_slot_count(rest);
        assert(rest.push(entries.last()) == entries);
        assert(!has_id(rest, entries.last().id@));
        lemma_slots_after_push(rest, entries.last());
        assert(slots_of(entries).dom() =~= slots_of(rest).dom().insert(entries.last().id@));
    }
}

impl View for ImageCompositor {
    type V = CompositorView;

    closed spec fn view(&self) -> CompositorView {
        CompositorView { epoch: self.epoch, slots: slots_of(self.entries@) }
    }
}

impl Default for ImageCompositor {
    fn default() -> (compositor: Self)
        ensures
            compositor@ == (CompositorView { epoch: 0, slots: Map::empty() }),
    {
        let compositor = ImageCompositor { entries: Vec::new(), epoch: 0, clock: Clock::start() };
        assert(compositor@.slots =~= Map::empty());
        compositor
    }
}

/// Finds the entry named `id`.
fn find(entries: &Vec<Entry>, id: &str) -> (found: Option<usize>)
    requires
        distinct_ids(entries@),
    ensures
        match found {
            Some(i) => {
                &&& i < entries@.len()
                &&& entries@[i as int].id@ == id@
                &&& slots_of(entries@).dom().contains(id@)
                &&& slots_of(entries@)[id@] == entries@[i as int].slot@
            },
            None => !slots_of(entries@).dom().contains(id@),
        },
{
    let wanted = id.to_owned();
    let mut i: usize = 0;
    while i < entries.len()
        invariant
            distinct_ids(entries@),
            wanted@ == id@,
            i <= entries@.len(),
            forall|j: int| 0 <= j < i ==> #[trigger] entries@[j].id@ != id@,
        decreases entries@.len() - i,
    {
        if entries[i].id == wanted {
            proof {
                lemma_slot_of_entry(entries@, i as int);
            }
            return Some(i);
        }
        i = i + 1;
    }
    None
}

impl ImageCompositor {
    /// Slots have distinct names, and every slot is consistent.
    #[verifier::type_invariant]
    spec fn wf(self) -> bool {
        &&& distinct_ids(self.entries@)
        &&& forall|i: int|
            0 <= i < self.entries@.len() ==> (#[trigger] self.entries@[i]).slot.wf()
    }

    /// The clock that [`ImageCompositor::render`] goes by.
    pub closed spec fn clock(self) -> Clock {
        self.clock
    }

    /// Advances the frame counter; to be called once per UI pass before drawing.
    pub fn begin_frame(&mut self)
        ensures
            final(self).clock() == old(self).clock(),
            final(self)@.slots == old(self)@.slots,
            final(self)@.epoch == (old(self)@.epoch + 1) % (u64::MAX + 1),
    {
        proof {
            use_type_invariant(&*self);
        }
        self.epoch = self.epoch.wrapping_add(1);
    }

    /// Draws the cover identified by `img` and `url` into `area`, by the clock reading `now`.
    ///
    /// Honors healing (skipped frames, interval backstop) and coalesces rapid target changes into
    /// a single encode after the settle window of silence.
    pub fn render_at(
        &mut self,
        frame: &mut Frame<'_>,
        picker: &Picker,
        slot_id: &'static str,
        url: &str,
        img: &DynamicImage,
        area: Rect,
        now: Instant,
    ) -> (outcome: Outcome)
        ensures
            final(self).clock() == old(self).clock(),
            renders(
                old(self)@,
                *picker,
                slot_id@,
                url@,
                *img,
                area,
                now,
                final(self)@,
                outcome@,
                frame_cells(*old(frame)),
                frame_cells(*final(frame)),
            ),
    {
        proof {
            use_type_invariant(&*self);
        }
        let epoch: u64 = self.epoch;
        let ghost encodes = self@.encodes(slot_id@, url@, area, now);
        let mut entries: Vec<Entry> = Vec::new();
        std::mem::swap(&mut entries, &mut self.entries);
        let ghost before = entries@;
        let outcome = match find(&entries, slot_id) {
            None => {
                // First sighting: encode immediately so the very first paint is correct.
                let prepared_surface = Surface::prepare(picker, url, img, area, epoch, now);
                proof {
                    let encoding = choose|encoding: Encoding| #[trigger]
                        encoding_of(*picker, *img, encoding) && surface_view(prepared_surface)
                            == prepared(*picker, url@, *img, area, epoch, now, encoding);
                    assert(encoded_if(encodes, *picker, *img, encoding));
                }
                match prepared_surface {
                    Err(error) => Outcome::Skipped(error),
                    Ok(surface) => {
                        let mut slot = Slot {
                            surface,
                            requested_url: Some(url.to_owned()),
                            requested_area: Some(area),
                            last_change: Some(now),
                        };
                        let transmit = slot.surface.transmission(area);
                        let painted = slot.surface.draw(frame, area);
                        let entry = Entry { id: slot_id.to_owned(), slot };
                        proof {
                            lemma_slots_after_push(before, entry);
                        }
                        entries.push(entry);
                        Outcome::Drawn { transmit, heal_error: None, painted }
                    },
                }
            },
            Some(i) => {
                assert(entries@[i as int].slot.wf());
                let outcome = entries[i].slot.render(frame, picker, url, img, area, epoch, now);
                proof {
                    lemma_slots_after_update(before, entries@, i as int);
                }
                outcome
            },
        };
        proof {
            lemma_ready(before);
            lemma_ready(entries@);
        }
        self.entries = entries;
        outcome
    }

    /// Draws the cover identified by `img` and `url` into `area`, by what the clock shows now.
    pub fn render(
        &mut self,
        frame: &mut Frame<'_>,
        picker: &Picker,
        slot_id: &'static str,
        url: &str,
        img: &DynamicImage,
        area: Rect,
    ) -> (outcome: Outcome)
        ensures
            exists|now: Instant| #[trigger]
                old(self).clock().reads(now, final(self).clock()) && renders(
                    old(self)@,
                    *picker,
                    slot_id@,
                    url@,
                    *img,
                    area,
                    now,
                    final(self)@,
                    outcome@,
                    frame_cells(*old(frame)),
                    frame_cells(*final(frame)),
                ),
    {
        proof {
            use_type_invariant(&*self);
        }
        let (now, clock) = self.clock.now();
        self.clock = clock;
        assert(self@ == old(self)@);
        let outcome = self.render_at(frame, picker, slot_id, url, img, area, now);
        assert(old(self).clock().reads(now, self.clock()));
        outcome
    }

    /// The current frame.
    pub fn epoch(&self) -> (epoch: u64)
        ensures
            epoch == self@.epoch,
    {
        self.epoch
    }

    /// The slot that was drawn under the name `id`.
    pub fn slot(&self, id: &str) -> (slot: Option<&Slot>)
        ensures
            match slot {
                Some(slot) => self@.slots.dom().contains(id@) && slot@ == self@.slots[id@],
                None => !self@.slots.dom().contains(id@),
            },
    {
        proof {
            use_type_invariant(self);
        }
        match find(&self.entries, id) {
            Some(i) => Some(&self.entries[i].slot),
            None => None,
        }
    }

    /// A short description for logs: the number of slots, and that there is more to it.
    pub fn debug_text(&self) -> (text: String)
        ensures
            text@ == "ImageCompositor { slots: "@ + decimal(self@.slots.dom().len())
                + ", .. }"@,
    {
        proof {
            use_type_invariant(self);
            lemma_slot_count(self.entries@);
        }
        let mut text = String::new();
        text.append("ImageCompositor { slots: ");
        push_decimal(&mut text, self.entries.len() as u64);
        text.append(", .. }");
        text
    }
}

} // verus!
