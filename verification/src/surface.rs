//! A cover image that was encoded once and is kept alive across frames.
use vstd::prelude::*;
use image::DynamicImage;
use ratatui::Frame;
use ratatui_image::picker::Picker;
use ratatui_image::protocol::StatefulProtocol;
use crate::base64_text::{base64_fits, can_encode};
use crate::geometry::{Rect, Size};
use crate::graphics::{
    can_scale, drawn_protocol, exact_buffer, font_size, frame_cells, has_exact_buffer,
    image_dimensions, image_len, image_pixels, needs_encoding, new_resize_protocol, painted_cells,
    picker_protocol, pixel_bytes, png_file, png_reply, protocol_picture, protocol_type,
    render_widget, reserve_area, reserved, same_outside, scalable, source_picture, undrawn,
    write_png, Cells, Picture, ProtocolKind,
};
use crate::iterm2::{escape_png, image_escape, placed_escape, write_iterm2};
use crate::time::{elapsed, Instant, NANOS_PER_MILLI};

verus! {

/// Backstop interval between forced re-transmissions of grid-anchored surfaces, in nanoseconds.
pub const TRANSMIT_REFRESH_INTERVAL: u128 = 5_000 * NANOS_PER_MILLI;

/// Why an image could not be turned into a surface.
#[derive(Debug)]
pub enum EncodeError {
    /// The image could not be encoded as PNG, with the encoder's error.
    Png(image::ImageError),
    /// The image's buffer does not have the length that its measures ask for.
    Malformed,
    /// The PNG file is too large for an escape sequence.
    TooLarge,
}

impl EncodeError {
    pub open spec fn spec_message(self) -> Seq<char> {
        match self {
            EncodeError::Png(_) => "encode cover image to PNG"@,
            EncodeError::Malformed => "cover image does not fill its buffer"@,
            EncodeError::TooLarge => "cover image is too large for an escape sequence"@,
        }
    }

    /// A description for logs. The encoder's own error comes beside it.
    pub fn message(&self) -> (text: &'static str)
        ensures
            text@ == self.spec_message(),
    {
        match self {
            EncodeError::Png(_) => "encode cover image to PNG",
            EncodeError::Malformed => "cover image does not fill its buffer",
            EncodeError::TooLarge => "cover image is too large for an escape sequence",
        }
    }
}

/// The encoded form of a cover image.
pub enum Encoded {
    /// Rendered as a widget. `scheduled` is set for grid-anchored protocols (kitty) whose data
    /// needs interval refreshes; glyph painters opt out. `pixels` and `font` are the measures of
    /// the picture and of a terminal cell.
    Widget {
        protocol: Box<StatefulProtocol>,
        size: Size,
        scheduled: bool,
        pixels: (u32, u32),
        font: (u16, u16),
    },
    /// A cursor-anchored inline-image escape that is written straight to the terminal.
    Iterm2 { escape: String },
}

pub ghost enum EncodedView {
    /// The protocol comes with the picture that it holds.
    Widget { protocol: StatefulProtocol, picture: Picture, size: Size, scheduled: bool },
    Iterm2 { escape: Seq<char> },
}

impl EncodedView {
    /// Whether the pixels can silently vanish from the terminal grid.
    pub open spec fn scheduled(self) -> bool {
        match self {
            EncodedView::Widget { scheduled, .. } => scheduled,
            EncodedView::Iterm2 { .. } => true,
        }
    }

    /// What must be written to the terminal when a freshly prepared surface is shown at `area`.
    /// Inline images bypass the frame; widgets transmit through the cells that they draw.
    pub open spec fn transmission(self, area: Rect) -> Option<Seq<char>> {
        match self {
            EncodedView::Iterm2 { escape } => Some(placed_escape(escape, area@)),
            EncodedView::Widget { .. } => None,
        }
    }

    /// Whether this can be drawn at `area`: a widget must be able to scale its picture.
    pub open spec fn paintable(self, area: Rect) -> bool {
        match self {
            EncodedView::Iterm2 { .. } => true,
            EncodedView::Widget { picture, .. } => scalable(picture.pixels, picture.font, area@),
        }
    }

    /// Whether drawing at `area` turns the cells `before` into `after`. The cells under an inline
    /// image are only reserved; a widget paints with its protocol, if the picture can be scaled
    /// to the area at all.
    pub open spec fn drawn(self, area: Rect, before: Cells, after: Cells) -> bool {
        match self {
            EncodedView::Iterm2 { .. } => after == reserved(before, area),
            EncodedView::Widget { protocol, .. } => if self.paintable(area) {
                &&& same_outside(before, after, area)
                &&& after == painted_cells(protocol, area, before)
            } else {
                after == before
            },
        }
    }

    /// What becomes of this when it is drawn at `area`: a protocol keeps what it encoded and knows
    /// that it was drawn.
    pub open spec fn after_drawing(self, area: Rect) -> EncodedView {
        match self {
            EncodedView::Widget { protocol, picture, size, scheduled } if self.paintable(area) =>
                EncodedView::Widget {
                protocol: drawn_protocol(protocol, area),
                picture,
                size,
                scheduled,
            },
            _ => self,
        }
    }

    /// Whether drawing at `area` has the picture encoded, which for kitty sends its data.
    pub open spec fn encodes_at(self, area: Rect) -> bool {
        match self {
            EncodedView::Iterm2 { .. } => false,
            EncodedView::Widget { protocol, .. } => needs_encoding(protocol, area@.size()),
        }
    }

    /// Whether this is a widget with a picture that was never drawn. An inline image is not drawn
    /// through the frame.
    pub open spec fn never_drawn(self) -> bool {
        match self {
            EncodedView::Iterm2 { .. } => true,
            EncodedView::Widget { protocol, picture, .. } => {
                &&& picture == protocol_picture(protocol)
                &&& undrawn(protocol)
            },
        }
    }

    /// Whether this shows what `other` shows, encoded by the same preparation, whether it was
    /// drawn in between or not.
    pub open spec fn same_cover(self, other: EncodedView) -> bool {
        match (self, other) {
            (EncodedView::Iterm2 { escape }, EncodedView::Iterm2 { escape: other_escape }) => escape
                == other_escape,
            (
                EncodedView::Widget { picture, size, scheduled, .. },
                EncodedView::Widget {
                    picture: other_picture,
                    size: other_size,
                    scheduled: other_scheduled,
                    ..
                },
            ) => picture == other_picture && size == other_size && scheduled == other_scheduled,
            _ => false,
        }
    }

    /// Whether a widget that can be drawn at `area` has encoded its picture for that many cells.
    /// A sixel picture may have failed to be encoded.
    pub open spec fn ready_at(self, area: Rect) -> bool {
        self matches EncodedView::Widget { picture, .. } ==> {
            area@.has_cells() && self.paintable(area) && picture.kind != ProtocolKind::Sixel
                ==> !self.encodes_at(area)
        }
    }
}

/// An optional text.
pub open spec fn text_view(text: Option<String>) -> Option<Seq<char>> {
    match text {
        Some(text) => Some(text@),
        None => None,
    }
}

impl Encoded {
    /// The measures are those of the picture that is held, and inline images are not widgets.
    pub open spec fn wf(self) -> bool {
        match self {
            Encoded::Widget { protocol, pixels, font, .. } => {
                &&& pixels == protocol_picture(*protocol).pixels
                &&& font == protocol_picture(*protocol).font
                &&& protocol_picture(*protocol).kind != ProtocolKind::Iterm2
            },
            Encoded::Iterm2 { .. } => true,
        }
    }
}

impl View for Encoded {
    type V = EncodedView;

    open spec fn view(&self) -> EncodedView {
        match self {
            Encoded::Widget { protocol, size, scheduled, .. } => EncodedView::Widget {
                protocol: **protocol,
                picture: protocol_picture(**protocol),
                size: *size,
                scheduled: *scheduled,
            },
            Encoded::Iterm2 { escape } => EncodedView::Iterm2 { escape: escape@ },
        }
    }
}

/// A cover image encoded for one pair of source and area.
pub struct Surface {
    pub kind: Encoded,
    pub url: String,
    pub area: Rect,
    /// When the image data was last sent to the terminal. Drawing a surface again from what the
    /// terminal already holds does not count: the backstop interval runs between transmissions.
    pub last_emitted: Instant,
    /// The last frame in which this surface rendered. A gap means that other widgets painted over
    /// its cells meanwhile and the terminal may have dropped the underlying graphics data.
    pub last_frame: u64,
}

pub ghost struct SurfaceView {
    pub kind: EncodedView,
    pub url: Seq<char>,
    pub area: Rect,
    pub last_emitted: Instant,
    pub last_frame: u64,
}

/// Whether a re-emission is owed: either nothing was emitted yet or the backstop interval elapsed.
pub open spec fn owes_refresh(last: Option<Instant>, now: Instant) -> bool {
    match last {
        Some(at) => elapsed(at, now) >= TRANSMIT_REFRESH_INTERVAL,
        None => true,
    }
}

impl SurfaceView {
    /// Whether frames passed between the last rendering and frame `epoch`.
    pub open spec fn missed_frames(self, epoch: u64) -> bool {
        epoch - self.last_frame > 1
    }

    /// Whether the surface must be sent again when it renders in frame `epoch` at `now`.
    pub open spec fn needs_heal(self, epoch: u64, now: Instant) -> bool {
        ||| self.missed_frames(epoch)
        ||| self.kind.scheduled() && owes_refresh(Some(self.last_emitted), now)
    }

    /// The surface after it was drawn at `area` in frame `epoch`.
    pub open spec fn rendered(self, epoch: u64, area: Rect) -> SurfaceView {
        SurfaceView { kind: self.kind.after_drawing(area), last_frame: epoch, ..self }
    }

    /// Whether this is `other`, but for the frames in which it was drawn since.
    pub open spec fn same_surface(self, other: SurfaceView) -> bool {
        &&& self.kind.same_cover(other.kind)
        &&& self.url == other.url
        &&& self.area == other.area
        &&& self.last_emitted == other.last_emitted
    }
}

impl View for Surface {
    type V = SurfaceView;

    open spec fn view(&self) -> SurfaceView {
        SurfaceView {
            kind: self.kind@,
            url: self.url@,
            area: self.area,
            last_emitted: self.last_emitted,
            last_frame: self.last_frame,
        }
    }
}

/// The escape that `reply` of the PNG encoder makes for an image at `area`.
pub open spec fn escaped(
    reply: Result<Seq<u8>, image::ImageError>,
    area: Rect,
) -> Result<Seq<char>, EncodeError> {
    match reply {
        Err(cause) => Err(EncodeError::Png(cause)),
        Ok(png) => if base64_fits(png.len()) {
            Ok(image_escape(png, area@))
        } else {
            Err(EncodeError::TooLarge)
        },
    }
}

/// The escape for `img` at `area`, where `reply` is what encoding it as PNG comes to.
pub open spec fn escape_of(
    img: DynamicImage,
    area: Rect,
    reply: Result<Seq<u8>, image::ImageError>,
) -> Result<Seq<char>, EncodeError> {
    if exact_buffer(img) {
        escaped(reply, area)
    } else {
        Err(EncodeError::Malformed)
    }
}

/// What encoding an image comes to: the reply of the PNG encoder for an inline image, a new protocol
/// for a widget.
pub ghost struct Encoding {
    pub png: Result<Seq<u8>, image::ImageError>,
    pub protocol: StatefulProtocol,
}

/// Whether `encoding` can be what encoding `img` in the way of `picker` comes to. A new protocol
/// holds the picture and was never drawn.
pub open spec fn encoding_of(picker: Picker, img: DynamicImage, encoding: Encoding) -> bool {
    if picker_protocol(picker) == ProtocolKind::Iterm2 {
        png_reply(img, encoding.png)
    } else {
        &&& protocol_picture(encoding.protocol) == source_picture(picker, img)
        &&& undrawn(encoding.protocol)
    }
}

/// Whether `encoding` is a possible one, if one is made at all.
pub open spec fn encoded_if(
    made: bool,
    picker: Picker,
    img: DynamicImage,
    encoding: Encoding,
) -> bool {
    made ==> encoding_of(picker, img, encoding)
}

/// The encoded form of `img` for `area` that `encoding` makes.
pub open spec fn encoded(
    picker: Picker,
    img: DynamicImage,
    area: Rect,
    encoding: Encoding,
) -> Result<EncodedView, EncodeError> {
    if picker_protocol(picker) == ProtocolKind::Iterm2 {
        match escape_of(img, area, encoding.png) {
            Ok(escape) => Ok(EncodedView::Iterm2 { escape }),
            Err(error) => Err(error),
        }
    } else {
        Ok(
            EncodedView::Widget {
                protocol: encoding.protocol,
                picture: source_picture(picker, img),
                size: area@.size(),
                scheduled: picker_protocol(picker) == ProtocolKind::Kitty,
            },
        )
    }
}

/// The surface that preparing `img` in frame `epoch` at `now` comes to.
pub open spec fn prepared(
    picker: Picker,
    url: Seq<char>,
    img: DynamicImage,
    area: Rect,
    epoch: u64,
    now: Instant,
    encoding: Encoding,
) -> Result<SurfaceView, EncodeError> {
    match encoded(picker, img, area, encoding) {
        Ok(kind) => Ok(SurfaceView { kind, url, area, last_emitted: now, last_frame: epoch }),
        Err(error) => Err(error),
    }
}

/// Whether a re-emission is owed: either nothing was emitted yet or the backstop interval elapsed.
pub fn refresh_due(last: Option<Instant>, now: Instant) -> (due: bool)
    ensures
        due == owes_refresh(last, now),
        due <==> (last matches Some(at) ==> at.nanos + TRANSMIT_REFRESH_INTERVAL <= now.nanos),
{
    match last {
        Some(at) => now.duration_since(at) >= TRANSMIT_REFRESH_INTERVAL,
        None => true,
    }
}

/// What the PNG encoder came to.
pub open spec fn reply_view(reply: Result<Vec<u8>, image::ImageError>) -> Result<
    Seq<u8>,
    image::ImageError,
> {
    match reply {
        Ok(png) => Ok(png@),
        Err(cause) => Err(cause),
    }
}

/// The text of an escape that may have failed.
pub open spec fn escape_view(escape: Result<String, EncodeError>) -> Result<
    Seq<char>,
    EncodeError,
> {
    match escape {
        Ok(text) => Ok(text@),
        Err(error) => Err(error),
    }
}

/// What preparing a surface came to.
pub open spec fn surface_view(surface: Result<Surface, EncodeError>) -> Result<
    SurfaceView,
    EncodeError,
> {
    match surface {
        Ok(fresh) => Ok(fresh@),
        Err(error) => Err(error),
    }
}

/// The inline-image escape for what the PNG encoder came to.
pub fn escape_reply(reply: Result<Vec<u8>, image::ImageError>, area: Rect) -> (escape: Result<
    String,
    EncodeError,
>)
    ensures
        escape_view(escape) == escaped(reply_view(reply), area),
        reply matches Err(cause) ==> escape == Err::<String, EncodeError>(EncodeError::Png(cause)),
        reply matches Ok(png) ==> match escape {
            Ok(text) => text@ == image_escape(png@, area@) && 4 * ((png@.len() + 2) / 3)
                <= isize::MAX,
            Err(error) => error is TooLarge && 4 * ((png@.len() + 2) / 3) > isize::MAX,
        },
{
    match reply {
        Err(cause) => Err(EncodeError::Png(cause)),
        Ok(png) => if can_encode(png.len()) {
            Ok(escape_png(png.as_slice(), area))
        } else {
            Err(EncodeError::TooLarge)
        },
    }
}

/// Encodes `img` as a cursor-anchored, cell-sized inline-image escape sequence.
pub fn encode_iterm2(img: &DynamicImage, area: Rect) -> (escape: Result<String, EncodeError>)
    ensures
        exists|reply: Result<Seq<u8>, image::ImageError>| #[trigger]
            png_reply(*img, reply) && escape_view(escape) == escape_of(*img, area, reply),
        escape matches Ok(text) ==> text@ == image_escape(png_file(*img), area@),
        escape matches Err(EncodeError::Malformed) <==> image_len(*img) != image_pixels(*img).0
            * image_pixels(*img).1 * pixel_bytes(*img),
{
    if !has_exact_buffer(img) {
        proof {
            let reply: Result<Seq<u8>, image::ImageError> = Ok(Seq::empty());
            assert(png_reply(*img, reply));
        }
        return Err(EncodeError::Malformed);
    }
    let reply = write_png(img);
    assert(png_reply(*img, reply_view(reply)));
    escape_reply(reply, area)
}

impl Surface {
    /// The encoded form is consistent.
    pub open spec fn wf(self) -> bool {
        self.kind.wf()
    }

    /// Encodes `img` for `area` in the way that `picker` is set to.
    pub fn prepare(
        picker: &Picker,
        url: &str,
        img: &DynamicImage,
        area: Rect,
        epoch: u64,
        now: Instant,
    ) -> (surface: Result<Surface, EncodeError>)
        ensures
            surface matches Ok(fresh) ==> fresh.wf(),
            exists|encoding: Encoding| #[trigger]
                encoding_of(*picker, *img, encoding) && surface_view(surface) == prepared(
                    *picker,
                    url@,
                    *img,
                    area,
                    epoch,
                    now,
                    encoding,
                ),
    {
        let used = protocol_type(picker);
        if used == ProtocolKind::Iterm2 {
            let escape = encode_iterm2(img, area);
            proof {
                let png = choose|reply: Result<Seq<u8>, image::ImageError>| #[trigger]
                    png_reply(*img, reply) && escape_view(escape) == escape_of(*img, area, reply);
                assert(encoding_of(*picker, *img, Encoding { png, protocol: arbitrary() }));
            }
            match escape {
                Ok(escape) => Ok(
                    Surface {
                        kind: Encoded::Iterm2 { escape },
                        url: url.to_owned(),
                        area,
                        last_emitted: now,
                        last_frame: epoch,
                    },
                ),
                Err(error) => Err(error),
            }
        } else {
            let protocol = new_resize_protocol(picker, img);
            assert(encoding_of(*picker, *img, Encoding { png: arbitrary(), protocol }));
            let kind = Encoded::Widget {
                protocol: Box::new(protocol),
                size: area.size(),
                scheduled: used == ProtocolKind::Kitty,
                pixels: image_dimensions(img),
                font: font_size(picker),
            };
            Ok(Surface { kind, url: url.to_owned(), area, last_emitted: now, last_frame: epoch })
        }
    }

    /// Whether this surface's pixels can silently vanish from the terminal grid.
    pub fn scheduled(&self) -> (scheduled: bool)
        ensures
            scheduled == self.kind@.scheduled(),
            scheduled == match self.kind {
                Encoded::Widget { scheduled: repeated, .. } => repeated,
                Encoded::Iterm2 { .. } => true,
            },
    {
        match &self.kind {
            Encoded::Widget { scheduled, .. } => *scheduled,
            Encoded::Iterm2 { .. } => true,
        }
    }

    /// Whether this surface must be sent again when it renders in frame `epoch` at `now`. A
    /// skipped frame means that something else painted its cells; pixels that can vanish are
    /// also sent again after the backstop interval.
    pub fn needs_heal(&self, epoch: u64, now: Instant) -> (heal: bool)
        ensures
            heal == self@.needs_heal(epoch, now),
    {
        let missed_frames = epoch > self.last_frame && epoch - self.last_frame > 1;
        missed_frames || (self.scheduled() && refresh_due(Some(self.last_emitted), now))
    }

    /// What to write to the terminal to show this freshly prepared surface at `area`, if it does
    /// not transmit through the frame.
    pub fn transmission(&self, area: Rect) -> (transmit: Option<String>)
        ensures
            text_view(transmit) == self@.kind.transmission(area),
            self.kind matches Encoded::Iterm2 { escape } ==> transmit matches Some(text) && text@
                == placed_escape(escape@, area@),
            self.kind is Widget ==> transmit is None,
    {
        match &self.kind {
            Encoded::Iterm2 { escape } => Some(write_iterm2(escape.as_str(), area)),
            Encoded::Widget { .. } => None,
        }
    }

    /// Draws this surface into `area` of the frame, and tells whether it could: a picture that
    /// cannot be scaled to the area leaves it untouched.
    pub fn draw(&mut self, frame: &mut Frame<'_>, area: Rect) -> (painted: bool)
        requires
            old(self).wf(),
        ensures
            final(self).wf(),
            final(self)@ == old(self)@.rendered(old(self)@.last_frame, area),
            final(self)@.kind.ready_at(area),
            painted == old(self)@.kind.paintable(area),
            old(self)@.kind.drawn(area, frame_cells(*old(frame)), frame_cells(*final(frame))),
    {
        proof {
            use_type_invariant(&area);
        }
        match &mut self.kind {
            Encoded::Widget { protocol, pixels, font, .. } => {
                let painted = can_scale(*pixels, *font, area);
                if painted {
                    render_widget(frame, area, protocol);
                }
                painted
            },
            Encoded::Iterm2 { .. } => {
                reserve_area(frame, area);
                true
            },
        }
    }
}

} // verus!
