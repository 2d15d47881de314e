//! What a terminal makes of the text that is written for an inline image.
use vstd::prelude::*;
use crate::escape_laws::{decimal_value, is_digit, law_decimal_reads_back, leading_digits};
use crate::escape_laws::lemma_leading_digits;
use crate::geometry::Area;
use crate::iterm2::{erase_row, erase_rows, move_to, placed_escape};
use crate::text::decimal;

verus! {

/// The state of a terminal: the cursor, where it was last saved, and the cells that were erased so
/// far. Rows and columns are counted from one.
pub ghost struct Screen {
    pub row: nat,
    pub column: nat,
    pub saved: (nat, nat),
    /// Erased stretches: row, first column and number of columns.
    pub erased: Seq<(nat, nat, nat)>,
}

/// The digits at the beginning of a text are no longer than the text.
pub proof fn lemma_digits_are_short(text: Seq<char>)
    ensures
        leading_digits(text).len() <= text.len(),
    decreases text.len(),
{
    if text.len() > 0 && is_digit(text[0]) {
        lemma_digits_are_short(text.drop_first());
    }
}

/// The terminal after `text`, if it consists of the commands that are known here and nothing else:
/// `ESC 7` saves the cursor and `ESC 8` takes it back to where it was saved, `ESC [ row ; column H`
/// moves it, and `ESC [ count X` erases cells from it on to the right and leaves it where it is.
pub open spec fn displayed(screen: Screen, text: Seq<char>) -> Option<Screen>
    decreases text.len(),
{
    if text.len() == 0 {
        Some(screen)
    } else if text.len() < 2 || text[0] != '\x1b' {
        None
    } else if text[1] == '7' {
        displayed(Screen { saved: (screen.row, screen.column), ..screen }, text.skip(2))
    } else if text[1] == '8' {
        displayed(Screen { row: screen.saved.0, column: screen.saved.1, ..screen }, text.skip(2))
    } else if text[1] == '[' {
        let first = leading_digits(text.skip(2));
        let rest = text.skip(2).skip(first.len() as int);
        proof {
            lemma_digits_are_short(text.skip(2));
        }
        if rest.len() > 0 && rest[0] == 'X' {
            displayed(
                Screen {
                    erased: screen.erased.push((screen.row, screen.column, decimal_value(first))),
                    ..screen
                },
                rest.skip(1),
            )
        } else if rest.len() > 0 && rest[0] == ';' {
            let second = leading_digits(rest.skip(1));
            let tail = rest.skip(1).skip(second.len() as int);
            proof {
                lemma_digits_are_short(rest.skip(1));
            }
            if tail.len() > 0 && tail[0] == 'H' {
                displayed(
                    Screen { row: decimal_value(first), column: decimal_value(second), ..screen },
                    tail.skip(1),
                )
            } else {
                None
            }
        } else {
            None
        }
    } else {
        None
    }
}

/// A cursor movement takes the cursor to its row and column.
proof fn lemma_move(screen: Screen, row: nat, column: nat, rest: Seq<char>)
    ensures
        displayed(screen, move_to(row, column) + rest) == displayed(
            Screen { row, column, ..screen },
            rest,
        ),
{
    reveal_strlit("\x1b[");
    reveal_strlit(";");
    reveal_strlit("H");
    law_decimal_reads_back(row);
    law_decimal_reads_back(column);
    let text = move_to(row, column) + rest;
    let ended = "H"@ + rest;
    let middle = ";"@ + decimal(column) + ended;
    assert(text.skip(2) =~= decimal(row) + middle);
    lemma_leading_digits(decimal(row), middle);
    assert(text.skip(2).skip(decimal(row).len() as int) =~= middle);
    assert(middle.skip(1) =~= decimal(column) + ended);
    lemma_leading_digits(decimal(column), ended);
    assert(middle.skip(1).skip(decimal(column).len() as int) =~= ended);
    assert(ended.skip(1) =~= rest);
}

/// An erasure covers the cells from the cursor on.
proof fn lemma_erase(screen: Screen, count: nat, rest: Seq<char>)
    ensures
        displayed(screen, "\x1b["@ + decimal(count) + "X"@ + rest) == displayed(
            Screen {
                erased: screen.erased.push((screen.row, screen.column, count)),
                ..screen
            },
            rest,
        ),
{
    reveal_strlit("\x1b[");
    reveal_strlit("X");
    law_decimal_reads_back(count);
    let text = "\x1b["@ + decimal(count) + "X"@ + rest;
    let ended = "X"@ + rest;
    assert(text.skip(2) =~= decimal(count) + ended);
    lemma_leading_digits(decimal(count), ended);
    assert(text.skip(2).skip(decimal(count).len() as int) =~= ended);
    assert(ended.skip(1) =~= rest);
}

/// The first `count` rows of an area as erased stretches, from the top down.
spec fn stretches(area: Area, count: nat) -> Seq<(nat, nat, nat)> {
    Seq::new(count, |i: int| ((area.y + 1 + i) as nat, area.x + 1, area.width))
}

proof fn lemma_erase_rows(screen: Screen, area: Area, count: nat, rest: Seq<char>)
    ensures
        exists|cursor: (nat, nat)| #[trigger]
            displayed(
                Screen {
                    row: cursor.0,
                    column: cursor.1,
                    erased: screen.erased + stretches(area, count),
                    ..screen
                },
                rest,
            ) == displayed(screen, erase_rows(area, count) + rest),
    decreases count,
{
    if count == 0 {
        assert(erase_rows(area, 0) + rest =~= rest);
        assert(screen.erased + stretches(area, 0) =~= screen.erased);
        let cursor = (screen.row, screen.column);
        assert(displayed(
            Screen {
                row: cursor.0,
                column: cursor.1,
                erased: screen.erased + stretches(area, count),
                ..screen
            },
            rest,
        ) == displayed(screen, erase_rows(area, count) + rest));
    } else {
        let before = (count - 1) as nat;
        let row = area.y + count;
        let erasure = "\x1b["@ + decimal(area.width) + "X"@;
        assert(erase_rows(area, count) + rest =~= erase_rows(area, before) + (erase_row(area, row)
            + rest));
        lemma_erase_rows(screen, area, before, erase_row(area, row) + rest);
        let cursor = choose|cursor: (nat, nat)| #[trigger]
            displayed(
                Screen {
                    row: cursor.0,
                    column: cursor.1,
                    erased: screen.erased + stretches(area, before),
                    ..screen
                },
                erase_row(area, row) + rest,
            ) == displayed(screen, erase_rows(area, before) + (erase_row(area, row) + rest));
        let reached = Screen {
            row: cursor.0,
            column: cursor.1,
            erased: screen.erased + stretches(area, before),
            ..screen
        };
        assert(erase_row(area, row) + rest =~= move_to(row, area.x + 1) + (erasure + rest));
        lemma_move(reached, row, area.x + 1, erasure + rest);
        let moved = Screen { row, column: area.x + 1, ..reached };
        lemma_erase(moved, area.width, rest);
        assert(moved.erased.push((row, area.x + 1, area.width)) =~= screen.erased + stretches(
            area,
            count,
        ));
        let last = (row, area.x + 1);
        assert(displayed(
            Screen {
                row: last.0,
                column: last.1,
                erased: screen.erased + stretches(area, count),
                ..screen
            },
            rest,
        ) == displayed(screen, erase_rows(area, count) + rest));
    }
}

/// What is written for an inline image at `area`, whatever its escape is, leads the terminal through
/// this: the cursor is saved, every row of the area is erased over the width of the area and
/// nothing else is, and the cursor is at the top-left cell of the area when the escape begins. The
/// escape is followed by nothing but a command that takes the cursor back to where it was.
pub proof fn law_image_is_placed_on_its_area(screen: Screen, escape: Seq<char>, area: Area)
    ensures
        ({
            let text = placed_escape(escape, area);
            let start = text.len() - escape.len() - 2;
            &&& start >= 0
            &&& text.subrange(start, start + escape.len()) == escape
            &&& displayed(screen, text.take(start)) == Some(
                Screen {
                    row: area.y + 1,
                    column: area.x + 1,
                    saved: (screen.row, screen.column),
                    erased: screen.erased + Seq::new(
                        area.height,
                        |i: int| ((area.y + 1 + i) as nat, area.x + 1, area.width),
                    ),
                },
            )
            &&& forall|later: Screen|
                #![trigger displayed(later, text.skip(text.len() - 2))]
                displayed(later, text.skip(text.len() - 2)) == Some(
                    Screen { row: later.saved.0, column: later.saved.1, ..later },
                )
        }),
{
    reveal_strlit("\x1b7");
    reveal_strlit("\x1b8");
    let text = placed_escape(escape, area);
    let start = text.len() - escape.len() - 2;
    let rows = erase_rows(area, area.height);
    let target = move_to(area.y + 1, area.x + 1);
    let lead = text.take(start);
    assert(text.subrange(start, start + escape.len()) =~= escape);
    assert(lead =~= "\x1b7"@ + rows + target);
    assert(lead.skip(2) =~= rows + target);
    let saved = Screen { saved: (screen.row, screen.column), ..screen };
    lemma_erase_rows(saved, area, area.height, target);
    let cursor = choose|cursor: (nat, nat)| #[trigger]
        displayed(
            Screen {
                row: cursor.0,
                column: cursor.1,
                erased: saved.erased + stretches(area, area.height),
                ..saved
            },
            target,
        ) == displayed(saved, rows + target);
    let erased = Screen {
        row: cursor.0,
        column: cursor.1,
        erased: saved.erased + stretches(area, area.height),
        ..saved
    };
    assert(target =~= target + Seq::empty());
    lemma_move(erased, area.y + 1, area.x + 1, Seq::empty());
    assert(erased.erased =~= screen.erased + Seq::new(
        area.height,
        |i: int| ((area.y + 1 + i) as nat, area.x + 1, area.width),
    ));
    assert forall|later: Screen|
        #![trigger displayed(later, text.skip(text.len() - 2))]
        displayed(later, text.skip(text.len() - 2)) == Some(
            Screen { row: later.saved.0, column: later.saved.1, ..later },
        ) by {
        let tail = text.skip(text.len() - 2);
        assert(tail =~= "\x1b8"@);
        assert(tail.skip(2) =~= Seq::empty());
        assert(displayed(
            Screen { row: later.saved.0, column: later.saved.1, ..later },
            tail.skip(2),
        ) is Some);
    }
}

} // verus!
