//! The terminal-graphics types that surfaces are made of, and what is relied on of them.
use vstd::prelude::*;
use image::{DynamicImage, GenericImageView};
use ratatui::buffer::{Cell, CellDiffOption};
use ratatui::style::Style;
use ratatui::Frame;
use ratatui_image::picker::{Picker, ProtocolType};
use ratatui_image::protocol::StatefulProtocol;
use ratatui_image::StatefulImage;
use crate::geometry::{Area, Rect, Size};

verus! {

/// The ways in which a picture can reach the terminal.
#[derive(Clone, Copy, Debug, PartialEq, Eq, Structural)]
pub enum ProtocolKind {
    Halfblocks,
    Sixel,
    Kitty,
    Iterm2,
}

/// What a stateful protocol holds of the picture that it shows.
pub ghost struct Picture {
    pub kind: ProtocolKind,
    /// Width and height in pixels.
    pub pixels: (u32, u32),
    /// Width and height of a terminal cell in pixels.
    pub font: (u16, u16),
    /// The samples of the picture, row by row.
    pub samples: Seq<u8>,
}

/// The smaller of two lengths.
pub open spec fn shorter(a: nat, b: nat) -> nat {
    if a <= b {
        a
    } else {
        b
    }
}

/// Whether 16 bits can count the pixels of a picture side after scaling. The picture shrinks by one
/// factor until `side` fits into `room` and `other`, the side across, into `other_room`; it never
/// grows. `side` times that factor must be below what rounds up to 65536.
pub open spec fn side_fits(side: nat, room: nat, other: nat, other_room: nat) -> bool {
    ||| shorter(side, room) <= u16::MAX
    ||| other > 0 && 2 * (side * shorter(other, other_room)) < 131071 * other
}

/// Whether a picture of these measures can be scaled to `area`: a cell must not be empty, and 16
/// bits must count both scaled sides.
pub open spec fn scalable(pixels: (u32, u32), font: (u16, u16), area: Area) -> bool {
    let (width, height) = (pixels.0 as nat, pixels.1 as nat);
    let (across, down) = (area.width * (font.0 as nat), area.height * (font.1 as nat));
    &&& font.0 > 0
    &&& font.1 > 0
    &&& side_fits(width, across, height, down)
    &&& side_fits(height, down, width, across)
}

/// What happens to a cell when the screen is brought up to date.
pub ghost enum DiffOption {
    /// It is written if it changed.
    Normal,
    /// It is left alone.
    Skip,
    /// It is written in any case.
    AlwaysUpdate,
    /// It is written as if it were this wide.
    ForcedWidth(u16),
}

/// Everything that a cell holds.
pub ghost struct CellView {
    pub symbol: Seq<char>,
    /// Colours and modifiers.
    pub style: Style,
    pub diff: DiffOption,
    /// The older mark for cells that are left alone, which stands beside the diff option.
    pub skip: bool,
}

/// The cells of a frame by column and row.
pub type Cells = Map<(u16, u16), CellView>;

/// Whether `after` has the cells of `before`, all of them as they were but for those of `area`.
pub open spec fn same_outside(before: Cells, after: Cells, area: Rect) -> bool {
    &&& after.dom() == before.dom()
    &&& forall|x: u16, y: u16|
        #![trigger after[(x, y)]]
        before.dom().contains((x, y)) && !area@.covers(x as int, y as int) ==> after[(x, y)]
            == before[(x, y)]
}

/// `cells` with every cell of `area` kept from being redrawn.
pub open spec fn reserved(cells: Cells, area: Rect) -> Cells {
    Map::new(
        |at: (u16, u16)| cells.dom().contains(at),
        |at: (u16, u16)|
            if area@.covers(at.0 as int, at.1 as int) {
                CellView { diff: DiffOption::Skip, ..cells[at] }
            } else {
                cells[at]
            },
    )
}

/// Declares `ratatui_image::picker::Picker`.
#[verifier::external_type_specification]
#[verifier::external_body]
pub struct ExPicker(Picker);

/// Declares `ratatui_image::protocol::StatefulProtocol`.
#[verifier::external_type_specification]
#[verifier::external_body]
pub struct ExStatefulProtocol(StatefulProtocol);

/// Declares `image::DynamicImage`.
#[verifier::external_type_specification]
#[verifier::external_body]
pub struct ExDynamicImage(DynamicImage);

/// Declares `image::ImageError`.
#[verifier::external_type_specification]
#[verifier::external_body]
pub struct ExImageError(image::ImageError);

/// Declares `ratatui::Frame`.
#[verifier::external_type_specification]
#[verifier::external_body]
pub struct ExFrame<'a>(Frame<'a>);

/// Declares `ratatui::style::Style`.
#[verifier::external_type_specification]
#[verifier::external_body]
pub struct ExStyle(Style);

/// Declares `ratatui::buffer::Cell`.
#[verifier::external_type_specification]
#[verifier::external_body]
pub struct ExCell(Cell);

/// The protocol that a picker is set to.
pub uninterp spec fn picker_protocol(picker: Picker) -> ProtocolKind;

/// The width and height in pixels of a terminal cell, as a picker has them.
pub uninterp spec fn picker_font(picker: Picker) -> (u16, u16);

/// The width and height of an image in pixels.
pub uninterp spec fn image_pixels(img: DynamicImage) -> (u32, u32);

/// The samples of `img`, laid over the background colour that `picker` is set to.
pub uninterp spec fn source_samples(picker: Picker, img: DynamicImage) -> Seq<u8>;

/// What a stateful protocol holds.
pub uninterp spec fn protocol_picture(protocol: StatefulProtocol) -> Picture;

/// The cells of a frame's buffer, as `Buffer::cell` finds them.
pub uninterp spec fn frame_cells(frame: Frame<'_>) -> Cells;

/// What a cell holds.
pub uninterp spec fn cell_view(cell: Cell) -> CellView;

/// `cells` after a stateful protocol was drawn onto them at `area`.
pub uninterp spec fn painted_cells(protocol: StatefulProtocol, area: Rect, cells: Cells) -> Cells;

/// A stateful protocol after it was drawn at `area`.
pub uninterp spec fn drawn_protocol(protocol: StatefulProtocol, area: Rect) -> StatefulProtocol;

/// Whether a stateful protocol has to encode its picture before it can be drawn on `size` cells:
/// `ResizeEncodeRender::needs_resize`, for the way in which a default `StatefulImage` resizes, asks
/// for it. A kitty protocol puts the data of the picture into the cells whenever it has encoded
/// it, and at no other drawing.
pub uninterp spec fn needs_encoding(protocol: StatefulProtocol, size: Size) -> bool;

/// Whether a stateful protocol has nothing encoded yet that could be drawn, whatever the number of
/// cells. Of one without pixels nothing is said.
pub open spec fn undrawn(protocol: StatefulProtocol) -> bool {
    let pixels = protocol_picture(protocol).pixels;
    forall|size: Size|
        pixels.0 > 0 && pixels.1 > 0 && size.width > 0 && size.height > 0
            ==> #[trigger] needs_encoding(protocol, size)
}

/// The number of bytes in the buffer that holds the samples of an image.
pub uninterp spec fn image_len(img: DynamicImage) -> usize;

/// The number of bytes that a pixel of an image takes.
pub uninterp spec fn pixel_bytes(img: DynamicImage) -> u8;

/// The number of samples that a pixel of an image has.
pub uninterp spec fn pixel_channels(img: DynamicImage) -> u8;

/// The PNG file for an image.
pub uninterp spec fn png_file(img: DynamicImage) -> Seq<u8>;

/// Whether the buffer of an image holds its pixels and nothing more. It may hold more: an image can
/// be made over a buffer that is longer than needed.
pub open spec fn exact_buffer(img: DynamicImage) -> bool {
    image_len(img) == image_pixels(img).0 * image_pixels(img).1 * pixel_bytes(img)
}

/// Whether the samples of an image are wider than a byte.
pub open spec fn wide_samples(img: DynamicImage) -> bool {
    pixel_bytes(img) > pixel_channels(img)
}

/// Whether there is a PNG file for an image: it must not be empty, and its samples must be of one or
/// two bytes.
pub open spec fn has_png(img: DynamicImage) -> bool {
    &&& image_pixels(img).0 > 0
    &&& image_pixels(img).1 > 0
    &&& pixel_bytes(img) <= 2 * pixel_channels(img)
}

/// Whether `reply` can be what encoding `img` as PNG comes to: the file, or the encoder's error. An
/// image with wide samples is copied by the encoder first, which fails when memory is short. An
/// image that does not fill its buffer is not handed to the encoder.
pub open spec fn png_reply(
    img: DynamicImage,
    reply: Result<Seq<u8>, image::ImageError>,
) -> bool {
    exact_buffer(img) ==> match reply {
        Ok(file) => has_png(img) && file == png_file(img),
        Err(_) => !has_png(img) || wide_samples(img),
    }
}

/// What a new protocol for `img` holds.
pub open spec fn source_picture(picker: Picker, img: DynamicImage) -> Picture {
    Picture {
        kind: picker_protocol(picker),
        pixels: image_pixels(img),
        font: picker_font(picker),
        samples: source_samples(picker, img),
    }
}

/// Calls `Picker::protocol_type`, which hands out the picker's setting; each of the four kinds is
/// mapped to its namesake.
#[verifier::external_body]
pub(crate) fn protocol_type(picker: &Picker) -> (kind: ProtocolKind)
    ensures
        kind == picker_protocol(*picker),
{
    match picker.protocol_type() {
        ProtocolType::Halfblocks => ProtocolKind::Halfblocks,
        ProtocolType::Sixel => ProtocolKind::Sixel,
        ProtocolType::Kitty => ProtocolKind::Kitty,
        ProtocolType::Iterm2 => ProtocolKind::Iterm2,
    }
}

/// Calls `Picker::font_size`, which hands out the picker's cell size.
#[verifier::external_body]
pub(crate) fn font_size(picker: &Picker) -> (font: (u16, u16))
    ensures
        font == picker_font(*picker),
{
    let font = picker.font_size();
    (font.width, font.height)
}

/// Calls `GenericImageView::dimensions` of an image: its width and height.
#[verifier::external_body]
pub(crate) fn image_dimensions(img: &DynamicImage) -> (pixels: (u32, u32))
    ensures
        pixels == image_pixels(*img),
{
    img.dimensions()
}

/// Calls `DynamicImage::as_bytes` and takes the length of the slice.
#[verifier::external_body]
pub(crate) fn buffer_len(img: &DynamicImage) -> (len: usize)
    ensures
        len == image_len(*img),
{
    img.as_bytes().len()
}

/// Calls `ColorType::bytes_per_pixel` of the image's colour type.
#[verifier::external_body]
pub(crate) fn bytes_per_pixel(img: &DynamicImage) -> (bytes: u8)
    ensures
        bytes == pixel_bytes(*img),
{
    img.color().bytes_per_pixel()
}

/// Calls `ColorType::channel_count` of the image's colour type.
#[verifier::external_body]
pub(crate) fn channel_count(img: &DynamicImage) -> (channels: u8)
    ensures
        channels == pixel_channels(*img),
{
    img.color().channel_count()
}

/// Calls `Picker::new_resize_protocol` on a copy of `img`. The protocol is of the picker's kind,
/// keeps the picker's cell size, and holds the picture with the picker's background under it;
/// the background leaves its measures as they are. Nothing is encoded yet, so whatever cells it is
/// first drawn on, it has to encode the picture for them. The number by which kitty knows the
/// picture is drawn at random, and nothing is said of it.
#[verifier::external_body]
pub(crate) fn new_resize_protocol(picker: &Picker, img: &DynamicImage) -> (protocol:
    StatefulProtocol)
    ensures
        protocol_picture(protocol) == (Picture {
            kind: picker_protocol(*picker),
            pixels: image_pixels(*img),
            font: picker_font(*picker),
            samples: source_samples(*picker, *img),
        }),
        undrawn(protocol),
{
    picker.new_resize_protocol(img.clone())
}

/// Calls `Frame::render_stateful_widget` with a default `StatefulImage`. The protocol scales and
/// encodes its picture for `area` and draws it there; it keeps the picture, and no cell outside
/// `area` changes. What the cells hold afterwards follows from the protocol, the area and the
/// cells before, and what becomes of the protocol follows from the protocol and the area. What it
/// has encoded for as many cells it draws again without encoding it; a sixel protocol may have
/// failed to encode, and nothing is said of that. Scaling divides by the cell size and counts pixels in 16 bits, drawing adds
/// offsets to the area's corner, and an iTerm2 protocol encodes its picture as PNG, which panics on
/// some: hence the requirements.
#[verifier::external_body]
pub(crate) fn render_widget(frame: &mut Frame<'_>, area: Rect, protocol: &mut StatefulProtocol)
    requires
        scalable(
            protocol_picture(*old(protocol)).pixels,
            protocol_picture(*old(protocol)).font,
            area@,
        ),
        area@.inside_grid(),
        protocol_picture(*old(protocol)).kind != ProtocolKind::Iterm2,
    ensures
        protocol_picture(*final(protocol)) == protocol_picture(*old(protocol)),
        same_outside(frame_cells(*old(frame)), frame_cells(*final(frame)), area),
        frame_cells(*final(frame)) == painted_cells(
            *old(protocol),
            area,
            frame_cells(*old(frame)),
        ),
        *final(protocol) == drawn_protocol(*old(protocol), area),
        area@.has_cells() && protocol_picture(*old(protocol)).kind != ProtocolKind::Sixel
            ==> !needs_encoding(*final(protocol), area@.size()),
{
    let target = ratatui::layout::Rect::new(area.x, area.y, area.width, area.height);
    frame.render_stateful_widget(StatefulImage::new(), target, protocol);
}

/// Calls `Buffer::cell_mut` on the frame's buffer: the cell at column `x` of row `y`, if the
/// buffer has it. What is written through the reference is written to that cell and no other.
#[verifier::external_body]
pub(crate) fn cell_mut<'b, 'f>(frame: &'b mut Frame<'f>, x: u16, y: u16) -> (found: Option<
    &'b mut Cell,
>)
    ensures
        match found {
            Some(cell) => {
                &&& frame_cells(*old(frame)).dom().contains((x, y))
                &&& cell_view(*cell) == frame_cells(*old(frame))[(x, y)]
                &&& frame_cells(*final(frame)) == frame_cells(*old(frame)).insert(
                    (x, y),
                    cell_view(*final(cell)),
                )
            },
            None => {
                &&& !frame_cells(*old(frame)).dom().contains((x, y))
                &&& frame_cells(*final(frame)) == frame_cells(*old(frame))
            },
        },
{
    frame.buffer_mut().cell_mut((x, y))
}

/// Calls `Cell::set_diff_option` with `CellDiffOption::Skip`: the cell is left alone from now on, and
/// everything else that it holds stays.
#[verifier::external_body]
pub(crate) fn skip_cell(cell: &mut Cell)
    ensures
        cell_view(*final(cell)) == (CellView { diff: DiffOption::Skip, ..cell_view(*old(cell)) }),
{
    cell.set_diff_option(CellDiffOption::Skip);
}

/// Calls `DynamicImage::write_to` for the PNG format into memory. A file that comes back is the
/// PNG file for the image. The encoder refuses an image that is empty or has samples wider than
/// two bytes; it also fails when memory is short for the copy that it makes of wide samples. It
/// panics on a buffer that does not have the length that the measures ask for.
#[verifier::external_body]
pub(crate) fn write_png(img: &DynamicImage) -> (file: Result<Vec<u8>, image::ImageError>)
    requires
        exact_buffer(*img),
    ensures
        match file {
            Ok(bytes) => has_png(*img) && bytes@ == png_file(*img),
            Err(_) => !has_png(*img) || wide_samples(*img),
        },
{
    let mut png = Vec::new();
    img.write_to(&mut std::io::Cursor::new(&mut png), image::ImageFormat::Png)?;
    Ok(png)
}

/// Tells whether the buffer of an image holds its pixels and nothing more.
pub fn has_exact_buffer(img: &DynamicImage) -> (exact: bool)
    ensures
        exact == exact_buffer(*img),
        exact <==> image_len(*img) == image_pixels(*img).0 * image_pixels(*img).1 * pixel_bytes(
            *img,
        ),
{
    let (width, height) = image_dimensions(img);
    let bytes: u8 = bytes_per_pixel(img);
    assert(width * height <= 0xffff_ffff * 0xffff_ffff) by (nonlinear_arith)
        requires
            width <= 0xffff_ffff,
            height <= 0xffff_ffff,
    ;
    let pixels: u128 = width as u128 * height as u128;
    assert(pixels * bytes <= 0xffff_ffff * 0xffff_ffff * 0xff) by (nonlinear_arith)
        requires
            pixels <= 0xffff_ffff * 0xffff_ffff,
            bytes <= 0xff,
    ;
    buffer_len(img) as u128 == pixels * bytes as u128
}

/// Tells whether the samples of an image are wider than a byte.
pub fn has_wide_samples(img: &DynamicImage) -> (wide: bool)
    ensures
        wide == wide_samples(*img),
        wide <==> pixel_bytes(*img) > pixel_channels(*img),
{
    bytes_per_pixel(img) > channel_count(img)
}

/// Tells whether there is a PNG file for an image.
pub fn has_png_file(img: &DynamicImage) -> (has: bool)
    ensures
        has == has_png(*img),
        has <==> image_pixels(*img).0 > 0 && image_pixels(*img).1 > 0 && pixel_bytes(*img) <= 2
            * pixel_channels(*img),
{
    let (width, height) = image_dimensions(img);
    let bytes: u8 = bytes_per_pixel(img);
    let channels: u8 = channel_count(img);
    width > 0 && height > 0 && bytes as u16 <= 2 * channels as u16
}

/// Tells whether 16 bits can count the pixels of a picture side after scaling.
fn side_can_fit(side: u32, room: u32, other: u32, other_room: u32) -> (fits: bool)
    ensures
        fits == side_fits(side as nat, room as nat, other as nat, other_room as nat),
{
    let fitted: u32 = if side <= room {
        side
    } else {
        room
    };
    let other_fitted: u32 = if other <= other_room {
        other
    } else {
        other_room
    };
    assert(side * other_fitted <= 0xffff_ffff * 0xffff_ffff) by (nonlinear_arith)
        requires
            side <= 0xffff_ffff,
            other_fitted <= 0xffff_ffff,
    ;
    let scaled: u128 = side as u128 * other_fitted as u128;
    fitted <= u16::MAX as u32 || (other > 0 && 2 * scaled < 131071 * other as u128)
}

/// Tells whether a picture of these measures can be scaled to `area`.
pub fn can_scale(pixels: (u32, u32), font: (u16, u16), area: Rect) -> (fits: bool)
    ensures
        fits == scalable(pixels, font, area@),
{
    let (columns, rows) = (area.width(), area.height());
    assert(columns * font.0 <= 0xffff * 0xffff && rows * font.1 <= 0xffff * 0xffff)
        by (nonlinear_arith)
        requires
            columns <= 0xffff,
            rows <= 0xffff,
            font.0 <= 0xffff,
            font.1 <= 0xffff,
    ;
    let across: u32 = columns as u32 * font.0 as u32;
    let down: u32 = rows as u32 * font.1 as u32;
    font.0 > 0 && font.1 > 0 && side_can_fit(pixels.0, across, pixels.1, down) && side_can_fit(
        pixels.1,
        down,
        pixels.0,
        across,
    )
}

/// Marks every cell of `area` that the frame has as skipped, so that redrawing leaves it alone.
pub fn reserve_area(frame: &mut Frame<'_>, area: Rect)
    ensures
        frame_cells(*final(frame)) == reserved(frame_cells(*old(frame)), area),
        frame_cells(*final(frame)).dom() == frame_cells(*old(frame)).dom(),
        forall|x: u16, y: u16|
            #![trigger frame_cells(*final(frame))[(x, y)]]
            frame_cells(*old(frame)).dom().contains((x, y)) ==> frame_cells(*final(frame))[(x, y)]
                == if area@.x <= x < area@.x + area@.width && area@.y <= y < area@.y
                + area@.height {
                CellView { diff: DiffOption::Skip, ..frame_cells(*old(frame))[(x, y)] }
            } else {
                frame_cells(*old(frame))[(x, y)]
            },
{
    let ghost before = frame_cells(*frame);
    let bottom: u16 = area.bottom();
    let right: u16 = area.right();
    let mut y: u16 = area.top();
    while y < bottom
        invariant
            area@.y <= y <= bottom,
            bottom == area@.y + area@.height,
            right == area@.x + area@.width,
            frame_cells(*frame) == reserved_rows(before, area, y as int),
        decreases bottom - y,
    {
        let mut x: u16 = area.left();
        while x < right
            invariant
                area@.y <= y < bottom,
                area@.x <= x <= right,
                bottom == area@.y + area@.height,
                right == area@.x + area@.width,
                frame_cells(*frame) == reserved_until(before, area, x as int, y as int),
            decreases right - x,
        {
            if let Some(cell) = cell_mut(frame, x, y) {
                skip_cell(cell);
            }
            x = x + 1;
        }
        y = y + 1;
    }
}

/// `cells` with the cells of `area` above row `y` kept from being redrawn.
spec fn reserved_rows(cells: Cells, area: Rect, y: int) -> Cells {
    reserved_until(cells, area, area@.x as int, y)
}

/// `cells` with the cells of `area` kept from being redrawn that come before column `x` of row
/// `y` when read row by row.
spec fn reserved_until(cells: Cells, area: Rect, x: int, y: int) -> Cells {
    Map::new(
        |at: (u16, u16)| cells.dom().contains(at),
        |at: (u16, u16)|
            if area@.covers(at.0 as int, at.1 as int) && (at.1 < y || (at.1 == y && at.0 < x)) {
                CellView { diff: DiffOption::Skip, ..cells[at] }
            } else {
                cells[at]
            },
    )
}

} // verus!
