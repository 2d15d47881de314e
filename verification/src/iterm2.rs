//! iTerm2 inline images as terminal escape sequences.
use vstd::prelude::*;
use vstd::string::*;
use crate::base64_text::{base64_fits, base64_text, encode_standard};
use crate::geometry::{Area, Rect};
use crate::text::{decimal, push_decimal};

verus! {

/// The inline-image escape for a PNG file, scaled to the cells of `area` with its aspect ratio
/// kept.
pub open spec fn image_escape(png: Seq<u8>, area: Area) -> Seq<char> {
    "\x1b]1337;File=inline=1;preserveAspectRatio=1;size="@ + decimal(png.len()) + ";width="@
        + decimal(area.width) + ";height="@ + decimal(area.height) + ":"@ + base64_text(png)
        + "\x07"@
}

/// Moves the cursor to a row and column counted from one.
pub open spec fn move_to(row: nat, column: nat) -> Seq<char> {
    "\x1b["@ + decimal(row) + ";"@ + decimal(column) + "H"@
}

/// Erases one row of `area`, given by its number counted from one.
pub open spec fn erase_row(area: Area, row: nat) -> Seq<char> {
    move_to(row, area.x + 1) + "\x1b["@ + decimal(area.width) + "X"@
}

/// Erases the first `count` rows of `area`, from the top down.
pub open spec fn erase_rows(area: Area, count: nat) -> Seq<char>
    decreases count,
{
    if count == 0 {
        Seq::empty()
    } else {
        erase_rows(area, (count - 1) as nat) + erase_row(area, area.y + count)
    }
}

/// Everything that is written to show the image of `escape` at `area`: the cursor is saved, the
/// cells are erased, the image is drawn from the top-left cell, and the cursor is restored.
pub open spec fn placed_escape(escape: Seq<char>, area: Area) -> Seq<char> {
    "\x1b7"@ + erase_rows(area, area.height) + move_to(area.y + 1, area.x + 1) + escape + "\x1b8"@
}

/// The inline-image escape for a PNG file, scaled to the cells of `area`.
pub fn escape_png(png: &[u8], area: Rect) -> (escape: String)
    requires
        base64_fits(png@.len()),
    ensures
        escape@ == image_escape(png@, area@),
{
    let mut escape = String::new();
    escape.append("\x1b]1337;File=inline=1;preserveAspectRatio=1;size=");
    push_decimal(&mut escape, png.len() as u64);
    escape.append(";width=");
    push_decimal(&mut escape, area.width() as u64);
    escape.append(";height=");
    push_decimal(&mut escape, area.height() as u64);
    escape.append(":");
    let data = encode_standard(png);
    escape.append(data.as_str());
    escape.append("\x07");
    escape
}

fn push_move_to(out: &mut String, row: u32, column: u32)
    ensures
        final(out)@ == old(out)@ + move_to(row as nat, column as nat),
{
    out.append("\x1b[");
    push_decimal(out, row as u64);
    out.append(";");
    push_decimal(out, column as u64);
    out.append("H");
}

/// What to write to the terminal to show a prepared image at the top-left cell of `area`. The
/// cell box is erased first, so that letterboxing does not reveal stale content, and the cursor
/// is put back afterwards.
pub fn write_iterm2(escape: &str, area: Rect) -> (out: String)
    ensures
        out@ == placed_escape(escape@, area@),
{
    let top: u32 = area.top() as u32;
    let column: u32 = area.left() as u32 + 1;
    let height: u32 = area.height() as u32;
    let mut out = String::new();
    out.append("\x1b7");
    let mut row: u32 = 0;
    while row < height
        invariant
            row <= height,
            height == area@.height,
            top == area@.y,
            column == area@.x + 1,
            top <= u16::MAX,
            height <= u16::MAX,
            out@ == "\x1b7"@ + erase_rows(area@, row as nat),
        decreases height - row,
    {
        row = row + 1;
        push_move_to(&mut out, top + row, column);
        out.append("\x1b[");
        push_decimal(&mut out, area.width() as u64);
        out.append("X");
    }
    push_move_to(&mut out, top + 1, column);
    out.append(escape);
    out.append("\x1b8");
    out
}

} // verus!
