use cover_compositor::base64_text::can_encode;
use cover_compositor::geometry::Rect;
use cover_compositor::graphics::{can_scale, reserve_area};
use cover_compositor::iterm2::{escape_png, write_iterm2};
use cover_compositor::surface::{escape_reply, EncodeError};
use cover_compositor::text::push_decimal;
use ratatui::backend::TestBackend;
use ratatui::buffer::CellDiffOption;
use ratatui::style::{Color, Style};
use ratatui::{Frame, Terminal};

#[test]
fn rectangles_end_at_the_edge_of_the_grid() {
    let inside = Rect::new(1, 2, 4, 3);
    assert_eq!((inside.left(), inside.right()), (1, 5));
    assert_eq!((inside.top(), inside.bottom()), (2, 5));
    let cut = Rect::new(65530, 65535, 20, 20);
    assert_eq!((cut.width(), cut.height()), (5, 0));
    assert_eq!((cut.right(), cut.bottom()), (65535, 65535));
}

#[test]
fn numbers_are_decimal() {
    let mut text = String::new();
    for value in [0, 7, 10, 1337, u64::MAX] {
        push_decimal(&mut text, value);
        text.push(' ');
    }
    assert_eq!(text, "0 7 10 1337 18446744073709551615 ");
}

#[test]
fn escapes_carry_padded_base64() {
    let area = Rect::new(0, 0, 12, 6);
    for (png, data) in [
        ("", ""),
        ("M", "TQ=="),
        ("Ma", "TWE="),
        ("Man", "TWFu"),
        ("\u{7f}\u{7f}?~", "f38/fg=="),
    ] {
        let size = png.len();
        let expected = format!(
            "\x1b]1337;File=inline=1;preserveAspectRatio=1;size={size};width=12;height=6:{data}\x07"
        );
        assert_eq!(escape_png(png.as_bytes(), area), expected);
        assert_eq!(escape_reply(Ok(png.as_bytes().to_vec()), area).expect("escape"), expected);
    }
    assert_eq!(escape_png(&[251, 255, 191], area).contains(":+/+/\x07"), true);
}

#[test]
fn the_cause_of_a_failure_is_kept() {
    let cause = image::ImageError::IoError(std::io::Error::other("no room"));
    match escape_reply(Err(cause), Rect::new(0, 0, 1, 1)) {
        Err(EncodeError::Png(image::ImageError::IoError(error))) => {
            assert_eq!(error.to_string(), "no room");
        }
        other => panic!("another outcome: {other:?}"),
    }
}

#[test]
fn only_texts_that_fit_into_memory_are_made() {
    assert!(can_encode(0));
    assert!(can_encode(1 << 20));
    assert!(!can_encode(usize::MAX));
    let groups = isize::MAX as usize / 4;
    assert!(can_encode(groups * 3));
    assert!(!can_encode(groups * 3 + 1));
    assert_eq!(
        EncodeError::TooLarge.message(),
        "cover image is too large for an escape sequence"
    );
}

#[test]
fn placing_an_image_erases_its_rows_and_keeps_the_cursor() {
    assert_eq!(
        write_iterm2("IMG", Rect::new(1, 1, 4, 2)),
        "\x1b7\x1b[2;2H\x1b[4X\x1b[3;2H\x1b[4X\x1b[2;2HIMG\x1b8"
    );
    assert_eq!(
        write_iterm2("", Rect::new(65535, 9, 4, 1)),
        "\x1b7\x1b[10;65536H\x1b[0X\x1b[10;65536H\x1b8"
    );
}

#[test]
fn reserving_skips_exactly_the_cells_of_the_area() {
    // The area reaches beyond the right edge of the screen.
    let area = Rect::new(4, 1, 4, 2);
    let mut terminal = Terminal::new(TestBackend::new(6, 4)).expect("terminal");
    terminal
        .draw(|frame| {
            reserve_area(frame, area);
            // Doing it again changes nothing.
            reserve_area(frame, area);
            let skipped: Vec<(u16, u16)> = (0..4)
                .flat_map(|y| (0..6).map(move |x| (x, y)))
                .filter(|&at| {
                    let cell = frame.buffer_mut().cell(at).expect("cell");
                    cell.diff_option == CellDiffOption::Skip
                })
                .collect();
            assert_eq!(skipped, vec![(4, 1), (5, 1), (4, 2), (5, 2)]);
        })
        .expect("draw");
}

/// The symbol, style and skip mark of every cell after `drawing`.
fn cells_after(drawing: impl Fn(&mut Frame)) -> Vec<(String, Style, bool)> {
    let mut cells = Vec::new();
    let mut terminal = Terminal::new(TestBackend::new(6, 4)).expect("terminal");
    terminal
        .draw(|frame| {
            for y in 0..4 {
                for x in 0..6 {
                    let cell = frame.buffer_mut().cell_mut((x, y)).expect("cell");
                    cell.set_symbol("#").set_style(Style::new().fg(Color::Rgb(x as u8, 0, y as u8)));
                }
            }
            drawing(frame);
            for y in 0..4 {
                for x in 0..6 {
                    let cell = frame.buffer_mut().cell((x, y)).expect("cell");
                    let skipped = cell.diff_option == CellDiffOption::Skip;
                    cells.push((cell.symbol().to_string(), cell.style(), skipped));
                }
            }
        })
        .expect("draw");
    cells
}

#[test]
fn areas_are_reserved_in_any_order() {
    let (first, second) = (Rect::new(0, 0, 3, 2), Rect::new(2, 1, 9, 9));
    let plain = cells_after(|_frame| {});
    let forth = cells_after(|frame| {
        reserve_area(frame, first);
        reserve_area(frame, second);
    });
    let back = cells_after(|frame| {
        reserve_area(frame, second);
        reserve_area(frame, first);
    });
    assert_eq!(forth, back);
    for (i, (symbol, style, skipped)) in forth.into_iter().enumerate() {
        let (x, y) = (i % 6, i / 6);
        assert_eq!((&symbol, &style), (&plain[i].0, &plain[i].1));
        assert_eq!(skipped, (x < 3 && y < 2) || (x >= 2 && y >= 1), "at {x}, {y}");
    }
}

#[test]
fn an_area_without_cells_reserves_nothing() {
    let plain = cells_after(|_frame| {});
    for area in [Rect::new(1, 1, 0, 3), Rect::new(1, 1, 3, 0), Rect::new(6, 4, 2, 2)] {
        assert_eq!(cells_after(|frame| reserve_area(frame, area)), plain);
    }
}

#[test]
fn pictures_scale_to_cells_that_16_bits_can_count() {
    let area = Rect::new(0, 0, 100, 50);
    assert!(can_scale((8, 8), (10, 20), area));
    assert!(can_scale((0, 0), (10, 20), area));
    assert!(can_scale((80_000, 80_000), (10, 20), area));
    assert!(!can_scale((80_000, 8), (1_000, 20), area));
    assert!(!can_scale((8, 80_000), (10, 2_000), area));
    assert!(!can_scale((8, 8), (0, 20), area));
    assert!(!can_scale((8, 8), (10, 0), area));

    // The height decides how far the picture shrinks.
    assert!(can_scale((80_000, 80_000), (1_000, 20), Rect::new(0, 0, 100, 5)));
    assert!(can_scale((80_000, 80_000), (10, 2_000), Rect::new(0, 0, 5, 100)));
    let line = Rect::new(0, 0, 101, 1);
    assert!(can_scale((131_070, 2), (1_310, 1), line));
    assert!(!can_scale((131_071, 2), (1_310, 1), line));
    assert!(!can_scale((65_536, 0), (1_310, 1), line));
    assert!(can_scale((65_535, 0), (1_310, 1), line));
}
