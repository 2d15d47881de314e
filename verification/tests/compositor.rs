use base64::Engine;
use cover_compositor::compositor::ImageCompositor;
use cover_compositor::geometry::Rect;
use cover_compositor::graphics::{has_exact_buffer, has_png_file, has_wide_samples};
use cover_compositor::iterm2::write_iterm2;
use cover_compositor::slot::{Outcome, Slot, URL_SETTLE_WINDOW};
use cover_compositor::surface::{
    encode_iterm2, EncodeError, Encoded, Surface, TRANSMIT_REFRESH_INTERVAL,
};
use cover_compositor::time::Instant;
use image::DynamicImage;
use ratatui::backend::TestBackend;
use ratatui::Terminal;
use ratatui_image::picker::{Picker, ProtocolType};

fn area() -> Rect {
    Rect::new(1, 1, 4, 2)
}

fn banded_img() -> DynamicImage {
    DynamicImage::from(image::ImageBuffer::<image::Rgb<u8>, _>::from_fn(8, 8, |_x, y| {
        if y < 4 {
            image::Rgb([255, 255, 255])
        } else {
            image::Rgb([0, 0, 0])
        }
    }))
}

fn flat_img() -> DynamicImage {
    DynamicImage::new_rgb8(8, 8)
}

/// An image that has no PNG encoding.
fn empty_img() -> DynamicImage {
    DynamicImage::new_rgb8(0, 0)
}

fn picker_for(protocol: ProtocolType) -> Picker {
    let mut picker = Picker::halfblocks();
    picker.set_protocol_type(protocol);
    picker
}

fn at(nanos: u128) -> Instant {
    Instant { nanos }
}

fn screen() -> Terminal<TestBackend> {
    Terminal::new(TestBackend::new(20, 6)).expect("terminal")
}

fn symbol(terminal: &Terminal<TestBackend>, x: u16, y: u16) -> String {
    terminal.backend().buffer().cell((x, y)).expect("cell").symbol().to_string()
}

fn slot<'a>(compositor: &'a ImageCompositor, id: &str) -> &'a Slot {
    compositor.slot(id).expect("slot")
}

fn escape_of(surface: &Surface) -> &str {
    match &surface.kind {
        Encoded::Iterm2 { escape } => escape.as_str(),
        Encoded::Widget { .. } => panic!("a widget has no escape"),
    }
}

/// One pass of the slot "s" at a given time.
fn pass(
    terminal: &mut Terminal<TestBackend>,
    compositor: &mut ImageCompositor,
    picker: &Picker,
    url: &str,
    img: &DynamicImage,
    now: Instant,
) -> Outcome {
    let mut outcome = None;
    terminal
        .draw(|f| outcome = Some(compositor.render_at(f, picker, "s", url, img, area(), now)))
        .expect("draw");
    outcome.expect("rendered")
}

/// What was transmitted, on a pass that drew the slot without trouble.
fn transmitted(outcome: Outcome) -> Option<String> {
    match outcome {
        Outcome::Drawn { transmit, heal_error: None, painted: true } => transmit,
        Outcome::Drawn { painted: false, .. } => panic!("nothing painted"),
        Outcome::Drawn { heal_error: Some(error), .. } => panic!("healing failed: {error:?}"),
        Outcome::Skipped(error) => panic!("nothing drawn: {error:?}"),
    }
}

#[test]
fn skipped_frames_trigger_heal_then_settle() {
    let picker = Picker::halfblocks();
    let img = flat_img();

    let mut compositor = ImageCompositor::default();
    let mut terminal = screen();

    compositor.begin_frame();
    terminal
        .draw(|f| {
            compositor.render(f, &picker, "s", "url://a", &img, area());
        })
        .unwrap();

    // Two skipped frames while the slot stayed idle.
    compositor.begin_frame();
    compositor.begin_frame();

    terminal
        .draw(|f| {
            compositor.render(f, &picker, "s", "url://a", &img, area());
        })
        .unwrap();
    // Same url proves no rebuild happened; the gap alone forced the healing pass.
    assert_eq!(slot(&compositor, "s").surface.url, "url://a");
    assert_eq!(slot(&compositor, "s").surface.last_frame, compositor.epoch());
}

#[test]
fn halfblocks_widget_renders_glyphs_across_frames() {
    let picker = Picker::halfblocks();
    let img = banded_img();

    let mut compositor = ImageCompositor::default();
    let mut terminal = screen();
    for _ in 0..3 {
        terminal
            .draw(|frame| {
                compositor.render(frame, &picker, "episode-detail", "url://a", &img, area());
            })
            .expect("draw");
    }

    let painted = (area().top()..area().bottom())
        .flat_map(|y| (area().left()..area().right()).map(move |x| (x, y)))
        .filter(|&(x, y)| symbol(&terminal, x, y) != " ")
        .count();
    assert!(painted > 0, "halfblocks cover left no glyphs in its area");
}

#[test]
fn url_burst_defers_and_settles_on_latest_target() {
    let picker = Picker::halfblocks();
    let img = flat_img();

    let mut compositor = ImageCompositor::default();
    let mut terminal = screen();

    let first_target = "url://a";
    let last_target = "url://c";
    let mut now = 0;

    compositor.begin_frame();
    pass(&mut terminal, &mut compositor, &picker, first_target, &img, at(now));
    assert_eq!(slot(&compositor, "s").surface.url, first_target);

    // Rapidly cycling targets inside the settle window must not re-encode anything.
    for url in ["url://b", "url://c", "url://b", first_target] {
        now += URL_SETTLE_WINDOW / 4;
        compositor.begin_frame();
        pass(&mut terminal, &mut compositor, &picker, url, &img, at(now));
    }
    assert_eq!(
        slot(&compositor, "s").surface.url,
        first_target,
        "bursting changes must not trigger re-encodes"
    );

    // Once inputs settle, exactly the latest target gets encoded: the first call records
    // the change and defers within its settle window, the next adopts it.
    pass(&mut terminal, &mut compositor, &picker, last_target, &img, at(now));
    assert_eq!(
        slot(&compositor, "s").surface.url,
        first_target,
        "freshly observed target must defer like any burst step"
    );

    now += URL_SETTLE_WINDOW + 20_000_000;
    compositor.begin_frame();
    pass(&mut terminal, &mut compositor, &picker, last_target, &img, at(now));
    assert_eq!(
        slot(&compositor, "s").surface.url,
        last_target,
        "settled state must adopt the latest selection"
    );
}

#[test]
fn a_new_target_defers_even_after_a_long_silence() {
    let picker = Picker::halfblocks();
    let mut compositor = ImageCompositor::default();
    let mut terminal = screen();

    compositor.begin_frame();
    pass(&mut terminal, &mut compositor, &picker, "url://a", &flat_img(), at(0));
    compositor.begin_frame();
    pass(&mut terminal, &mut compositor, &picker, "url://b", &flat_img(), at(1_000_000_000));
    let deferred = slot(&compositor, "s");
    assert_eq!(deferred.surface.url, "url://a");
    assert_eq!(deferred.requested_url.as_deref(), Some("url://b"));
    assert_eq!(deferred.last_change, Some(at(1_000_000_000)));
}

#[test]
fn repeats_let_a_burst_settle() {
    let picker = Picker::halfblocks();
    let mut compositor = ImageCompositor::default();
    let mut terminal = screen();

    compositor.begin_frame();
    pass(&mut terminal, &mut compositor, &picker, "url://a", &flat_img(), at(0));
    for (nanos, shown) in [
        (1_000_000_000, "url://a"),
        (1_149_999_999, "url://a"),
        (1_150_000_000, "url://b"),
    ] {
        compositor.begin_frame();
        pass(&mut terminal, &mut compositor, &picker, "url://b", &flat_img(), at(nanos));
        assert_eq!(slot(&compositor, "s").surface.url, shown);
        assert_eq!(slot(&compositor, "s").last_change, Some(at(1_000_000_000)));
    }
}

#[test]
fn a_moved_area_is_a_new_target() {
    let picker = Picker::halfblocks();
    let img = flat_img();
    let mut compositor = ImageCompositor::default();
    let mut terminal = screen();
    let moved = Rect::new(3, 2, 4, 2);

    compositor.begin_frame();
    pass(&mut terminal, &mut compositor, &picker, "url://a", &img, at(0));
    for (nanos, shown) in [(10, area()), (URL_SETTLE_WINDOW + 10, moved)] {
        compositor.begin_frame();
        terminal
            .draw(|f| {
                compositor.render_at(f, &picker, "s", "url://a", &img, moved, at(nanos));
            })
            .unwrap();
        assert_eq!(slot(&compositor, "s").surface.area, shown);
    }
}

#[test]
fn an_inline_image_is_transmitted_at_first_sight() {
    let picker = picker_for(ProtocolType::Iterm2);
    let mut compositor = ImageCompositor::default();
    let mut terminal = screen();

    compositor.begin_frame();
    let sent = transmitted(pass(
        &mut terminal,
        &mut compositor,
        &picker,
        "url://a",
        &banded_img(),
        at(0),
    ));
    let surface = &slot(&compositor, "s").surface;
    assert_eq!(sent, Some(write_iterm2(escape_of(surface), area())));
    assert!(surface.scheduled());

    // The next frame has nothing new to send.
    compositor.begin_frame();
    let again = pass(&mut terminal, &mut compositor, &picker, "url://a", &banded_img(), at(1));
    assert_eq!(transmitted(again), None);
}

#[test]
fn an_inline_image_is_transmitted_when_its_target_settles() {
    let picker = picker_for(ProtocolType::Iterm2);
    let mut compositor = ImageCompositor::default();
    let mut terminal = screen();

    compositor.begin_frame();
    pass(&mut terminal, &mut compositor, &picker, "url://a", &flat_img(), at(0));
    compositor.begin_frame();
    let deferred = pass(&mut terminal, &mut compositor, &picker, "url://b", &banded_img(), at(10));
    assert_eq!(transmitted(deferred), None);
    compositor.begin_frame();
    let settled = pass(
        &mut terminal,
        &mut compositor,
        &picker,
        "url://b",
        &banded_img(),
        at(10 + URL_SETTLE_WINDOW),
    );
    let escape = encode_iterm2(&banded_img(), area()).expect("escape");
    assert_eq!(transmitted(settled), Some(write_iterm2(&escape, area())));
}

#[test]
fn the_backstop_counts_from_the_last_transmission() {
    for protocol in [ProtocolType::Iterm2, ProtocolType::Kitty] {
        let picker = picker_for(protocol);
        let mut compositor = ImageCompositor::default();
        let mut terminal = screen();
        // Rendered once a second, in every frame.
        for second in 0..12 {
            compositor.begin_frame();
            let now = at(second * 1_000_000_000);
            transmitted(pass(
                &mut terminal,
                &mut compositor,
                &picker,
                "url://a",
                &flat_img(),
                now,
            ));
            let emitted = slot(&compositor, "s").surface.last_emitted;
            assert_eq!(emitted, at(second / 5 * TRANSMIT_REFRESH_INTERVAL));
        }
    }
}

#[test]
fn glyph_surfaces_are_never_refreshed() {
    for protocol in [ProtocolType::Halfblocks, ProtocolType::Sixel] {
        let picker = picker_for(protocol);
        let mut compositor = ImageCompositor::default();
        let mut terminal = screen();
        for minute in 0..3 {
            compositor.begin_frame();
            let now = at(minute * 60_000_000_000);
            pass(&mut terminal, &mut compositor, &picker, "url://a", &flat_img(), now);
            assert_eq!(slot(&compositor, "s").surface.last_emitted, at(0));
        }
        assert!(!slot(&compositor, "s").surface.scheduled());
    }
}

#[test]
fn healing_gives_kitty_a_fresh_image() {
    let picker = picker_for(ProtocolType::Kitty);
    let mut compositor = ImageCompositor::default();
    let mut terminal = screen();

    compositor.begin_frame();
    pass(&mut terminal, &mut compositor, &picker, "url://a", &banded_img(), at(0));
    let first = symbol(&terminal, 1, 1);
    assert!(first.contains("_Gq=2,i="), "the image data goes out with the first cell");

    compositor.begin_frame();
    pass(&mut terminal, &mut compositor, &picker, "url://a", &banded_img(), at(1));
    assert!(!symbol(&terminal, 1, 1).contains("_Gq=2,"), "it goes out once");

    compositor.begin_frame();
    compositor.begin_frame();
    pass(&mut terminal, &mut compositor, &picker, "url://a", &banded_img(), at(2));
    let healed = symbol(&terminal, 1, 1);
    assert!(healed.contains("_Gq=2,i="), "a gap sends it again");
    assert_eq!(slot(&compositor, "s").surface.last_emitted, at(2));
}

#[test]
fn kitty_data_goes_out_exactly_when_a_surface_is_prepared() {
    let picker = picker_for(ProtocolType::Kitty);
    let img = banded_img();
    let mut compositor = ImageCompositor::default();
    let mut terminal = screen();
    let moved = Rect::new(3, 2, 4, 2);
    let second = 1_000_000_000;
    for (nanos, url, area, sent) in [
        // At first sight, and not again while nothing changes.
        (0, "url://a", area(), true),
        (1, "url://a", area(), false),
        // Not while a target is deferred, but when it has settled.
        (2, "url://b", area(), false),
        (3, "url://c", area(), false),
        (3 + URL_SETTLE_WINDOW - 1, "url://c", area(), false),
        (3 + URL_SETTLE_WINDOW, "url://c", area(), true),
        (second, "url://c", area(), false),
        // A deferred move to as many cells draws what is there.
        (2 * second, "url://c", moved, false),
        (2 * second + URL_SETTLE_WINDOW, "url://c", moved, true),
        // The backstop counts from that transmission.
        (6 * second, "url://c", moved, false),
        (7 * second + URL_SETTLE_WINDOW - 1, "url://c", moved, false),
        (7 * second + URL_SETTLE_WINDOW, "url://c", moved, true),
        (8 * second, "url://c", moved, false),
    ] {
        compositor.begin_frame();
        terminal
            .draw(|f| {
                compositor.render_at(f, &picker, "s", url, &img, area, at(nanos));
            })
            .expect("draw");
        let first = symbol(&terminal, area.left(), area.top());
        assert_eq!(first.contains("_Gq=2,i="), sent, "{url} at {nanos}");
    }
}

#[test]
fn a_first_image_that_cannot_be_encoded_is_skipped() {
    let picker = picker_for(ProtocolType::Iterm2);
    let mut compositor = ImageCompositor::default();
    let mut terminal = screen();

    compositor.begin_frame();
    let outcome = pass(&mut terminal, &mut compositor, &picker, "url://a", &empty_img(), at(0));
    assert!(matches!(outcome, Outcome::Skipped(EncodeError::Png(_))));
    assert!(compositor.slot("s").is_none());
    match outcome {
        Outcome::Skipped(error) => assert_eq!(error.message(), "encode cover image to PNG"),
        Outcome::Drawn { .. } => panic!("nothing to draw"),
    }
}

#[test]
fn a_settled_target_that_cannot_be_encoded_is_skipped() {
    let picker = picker_for(ProtocolType::Iterm2);
    let mut compositor = ImageCompositor::default();
    let mut terminal = screen();

    compositor.begin_frame();
    pass(&mut terminal, &mut compositor, &picker, "url://a", &flat_img(), at(0));
    compositor.begin_frame();
    pass(&mut terminal, &mut compositor, &picker, "url://b", &empty_img(), at(0));
    compositor.begin_frame();
    let now = at(URL_SETTLE_WINDOW);
    let outcome = pass(&mut terminal, &mut compositor, &picker, "url://b", &empty_img(), now);
    assert!(matches!(outcome, Outcome::Skipped(EncodeError::Png(_))));
    let kept = slot(&compositor, "s");
    assert_eq!(kept.surface.url, "url://a");
    assert_eq!(kept.requested_url.as_deref(), Some("url://b"));
    assert_eq!(kept.surface.last_frame, 2);
}

#[test]
fn a_failed_heal_draws_what_is_there() {
    let picker = picker_for(ProtocolType::Iterm2);
    let mut compositor = ImageCompositor::default();
    let mut terminal = screen();

    compositor.begin_frame();
    pass(&mut terminal, &mut compositor, &picker, "url://a", &flat_img(), at(0));
    compositor.begin_frame();
    compositor.begin_frame();
    let outcome = pass(&mut terminal, &mut compositor, &picker, "url://a", &empty_img(), at(7));
    assert!(matches!(
        outcome,
        Outcome::Drawn { transmit: None, heal_error: Some(EncodeError::Png(_)), painted: true }
    ));
    let kept = &slot(&compositor, "s").surface;
    assert_eq!(kept.last_frame, 3);
    assert_eq!(kept.last_emitted, at(0));
}

#[test]
fn slots_do_not_disturb_each_other() {
    let picker = Picker::halfblocks();
    let mut compositor = ImageCompositor::default();
    let mut terminal = screen();
    assert_eq!(compositor.debug_text(), "ImageCompositor { slots: 0, .. }");

    compositor.begin_frame();
    for (id, url) in [("left", "url://l"), ("right", "url://r"), ("left", "url://x")] {
        terminal
            .draw(|f| {
                compositor.render_at(f, &picker, id, url, &flat_img(), area(), at(0));
            })
            .unwrap();
    }
    assert_eq!(compositor.debug_text(), "ImageCompositor { slots: 2, .. }");
    assert_eq!(slot(&compositor, "left").surface.url, "url://l");
    assert_eq!(slot(&compositor, "left").requested_url.as_deref(), Some("url://x"));
    assert_eq!(slot(&compositor, "right").surface.url, "url://r");
    assert!(compositor.slot("middle").is_none());
}

#[test]
fn frames_are_counted() {
    let mut compositor = ImageCompositor::default();
    assert_eq!(compositor.epoch(), 0);
    compositor.begin_frame();
    compositor.begin_frame();
    assert_eq!(compositor.epoch(), 2);
}

#[test]
fn the_escape_holds_the_png_file() {
    let mut png = Vec::new();
    banded_img()
        .write_to(&mut std::io::Cursor::new(&mut png), image::ImageFormat::Png)
        .expect("png");
    let data = base64::engine::general_purpose::STANDARD.encode(&png);
    let expected = format!(
        "\x1b]1337;File=inline=1;preserveAspectRatio=1;size={};width=4;height=2:{data}\x07",
        png.len()
    );
    assert_eq!(encode_iterm2(&banded_img(), area()).expect("escape"), expected);
    assert!(matches!(encode_iterm2(&empty_img(), area()), Err(EncodeError::Png(_))));
}

#[test]
fn the_escape_reads_back_as_the_image() {
    let escape = encode_iterm2(&banded_img(), area()).expect("escape");
    assert_eq!(escape.matches(':').count(), 1);
    let (head, tail) = escape.split_once(':').expect("colon");
    let data = tail.strip_suffix('\x07').expect("bell");
    let png = base64::engine::general_purpose::STANDARD.decode(data).expect("base64");
    let (_, fields) = head.split_once("size=").expect("size");
    assert_eq!(fields, format!("{};width=4;height=2", png.len()));
    let img = image::load_from_memory_with_format(&png, image::ImageFormat::Png).expect("png");
    assert_eq!(img, banded_img());
}

#[test]
fn the_escape_depends_on_the_extent_of_the_area() {
    let here = encode_iterm2(&banded_img(), Rect::new(0, 0, 4, 2)).expect("escape");
    let there = encode_iterm2(&banded_img(), Rect::new(30, 9, 4, 2)).expect("escape");
    assert_eq!(here, there);
    let larger = encode_iterm2(&banded_img(), Rect::new(0, 0, 5, 2)).expect("escape");
    assert_ne!(here, larger);
}

/// An image over a buffer that is longer than it needs.
fn loose_img() -> DynamicImage {
    let buffer = image::ImageBuffer::from_raw(2, 2, vec![0_u8; 20]).expect("buffer");
    DynamicImage::ImageRgb8(buffer)
}

#[test]
fn an_image_that_does_not_fill_its_buffer_is_refused() {
    assert!(has_exact_buffer(&banded_img()));
    assert!(has_exact_buffer(&empty_img()));
    assert!(!has_exact_buffer(&loose_img()));
    match encode_iterm2(&loose_img(), area()) {
        Err(error) => {
            assert!(matches!(error, EncodeError::Malformed));
            assert_eq!(error.message(), "cover image does not fill its buffer");
        }
        Ok(escape) => panic!("encoded: {escape}"),
    }
}

#[test]
fn images_with_samples_of_one_or_two_bytes_have_a_png_file() {
    let (rgb16, rgba32) = (DynamicImage::new_rgb16(8, 8), DynamicImage::new_rgba32f(8, 8));
    for (img, wide, png) in [
        (flat_img(), false, true),
        (DynamicImage::new_luma8(3, 5), false, true),
        (DynamicImage::new_luma_a8(3, 5), false, true),
        (DynamicImage::new_rgba8(1, 1), false, true),
        (empty_img(), false, false),
        (DynamicImage::new_rgb8(8, 0), false, false),
        (rgb16, true, true),
        (rgba32, true, false),
    ] {
        assert_eq!(has_wide_samples(&img), wide);
        assert_eq!(has_png_file(&img), png);
        assert_eq!(encode_iterm2(&img, area()).is_ok(), png);
    }
}

#[test]
fn a_surface_is_prepared_for_its_target() {
    let picker = picker_for(ProtocolType::Kitty);
    let surface = match Surface::prepare(&picker, "url://a", &flat_img(), area(), 9, at(4)) {
        Ok(surface) => surface,
        Err(error) => panic!("not prepared: {error:?}"),
    };
    assert_eq!(surface.url, "url://a");
    assert_eq!(surface.area, area());
    assert_eq!(surface.last_frame, 9);
    assert_eq!(surface.last_emitted, at(4));
    match surface.kind {
        Encoded::Widget { size, scheduled, pixels, font, .. } => {
            assert_eq!((size.width, size.height), (4, 2));
            assert!(scheduled);
            assert_eq!(pixels, (8, 8));
            assert_eq!(font, (10, 20));
        }
        Encoded::Iterm2 { .. } => panic!("kitty pictures are widgets"),
    }
}

#[test]
#[allow(deprecated)]
fn a_cell_without_pixels_leaves_the_area_undrawn() {
    let mut picker = Picker::from_fontsize(ratatui_image::FontSize::new(0, 20));
    picker.set_protocol_type(ProtocolType::Halfblocks);
    let mut compositor = ImageCompositor::default();
    let mut terminal = screen();

    compositor.begin_frame();
    let outcome =
        pass(&mut terminal, &mut compositor, &picker, "url://a", &banded_img(), at(0));
    assert!(matches!(
        outcome,
        Outcome::Drawn { transmit: None, heal_error: None, painted: false }
    ));
    assert_eq!(symbol(&terminal, 1, 1), " ");
    assert_eq!(slot(&compositor, "s").surface.last_frame, 1);
}

#[test]
#[allow(deprecated)]
fn a_long_picture_is_drawn_if_its_height_shrinks_it_enough() {
    // The picture comes out 35000 pixels wide.
    let mut picker = Picker::from_fontsize(ratatui_image::FontSize::new(1_000, 1));
    picker.set_protocol_type(ProtocolType::Halfblocks);
    let img = DynamicImage::from(image::ImageBuffer::from_pixel(
        70_000,
        2,
        image::Rgb([255_u8, 255, 255]),
    ));
    let mut compositor = ImageCompositor::default();
    let mut terminal = Terminal::new(TestBackend::new(100, 1)).expect("terminal");
    compositor.begin_frame();
    let mut outcome = None;
    terminal
        .draw(|f| {
            let area = Rect::new(0, 0, 100, 1);
            outcome = Some(compositor.render_at(f, &picker, "s", "url://a", &img, area, at(0)));
        })
        .expect("draw");
    assert_eq!(transmitted(outcome.expect("rendered")), None);
    let cell = terminal.backend().buffer().cell((0, 0)).expect("cell");
    assert_eq!(cell.bg, ratatui::style::Color::Rgb(255, 255, 255));
}

#[test]
fn cells_outside_the_area_are_untouched() {
    for protocol in [ProtocolType::Halfblocks, ProtocolType::Sixel, ProtocolType::Kitty] {
        let picker = picker_for(protocol);
        let mut compositor = ImageCompositor::default();
        let mut terminal = screen();
        compositor.begin_frame();
        terminal
            .draw(|f| {
                for y in 0..6 {
                    for x in 0..20 {
                        f.buffer_mut().cell_mut((x, y)).expect("cell").set_symbol("#");
                    }
                }
                compositor.render_at(f, &picker, "s", "url://a", &banded_img(), area(), at(0));
                for y in 0..6 {
                    for x in 0..20 {
                        let inside = (1..5).contains(&x) && (1..3).contains(&y);
                        let cell = f.buffer_mut().cell((x, y)).expect("cell");
                        assert!(inside || cell.symbol() == "#", "{protocol:?} at {x}, {y}");
                    }
                }
            })
            .expect("draw");
        assert_ne!(symbol(&terminal, 1, 1), "#");
    }
}
