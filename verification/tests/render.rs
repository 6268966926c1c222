use leddy_lib::interfaces::{
    DisplayConfig, MessageEnvelope, PixelOrigin, RepeatMode, ScrollDirection, ValidationError,
};
use leddy_lib::render::{
    content_width, playback_position, render_message_frame, render_text_5x7,
    scroll_offset_after, FrameBuffer,
};

fn config() -> DisplayConfig {
    DisplayConfig {
        width: 100,
        height: 10,
        brightness: 96,
        serpentine: true,
        origin: PixelOrigin::TopLeft,
    }
}

fn message(repeat: RepeatMode) -> MessageEnvelope {
    MessageEnvelope {
        id: "message-1".into(),
        text: "HELLO".into(),
        direction: ScrollDirection::Left,
        repeat,
        issued_at_unix_ms: 0,
    }
}

const SPEED: f32 = 20.0;

/// The length of one scroll cycle at `speed` pixels per second.
fn cycle_duration_ms(speed: f32, content_width: usize, display_width: usize) -> Option<u64> {
    if !speed.is_finite() || speed <= 0.0 {
        return None;
    }
    let travel = content_width.saturating_add(display_width).max(1);
    let duration = ((travel as f64 * 1_000.0) / f64::from(speed)).ceil();
    if !duration.is_finite() || duration >= u64::MAX as f64 {
        Some(u64::MAX)
    } else {
        Some(duration.max(1.0) as u64)
    }
}

/// The pixels travelled after `elapsed_ms` at `speed` pixels per second.
fn travelled(elapsed_ms: u64, speed: f32) -> usize {
    if speed.is_finite() && speed > 0.0 {
        ((elapsed_ms as f64 / 1_000.0) * f64::from(speed)) as usize
    } else {
        0
    }
}

fn render(
    config: &DisplayConfig,
    message: &MessageEnvelope,
    elapsed_ms: u64,
) -> Result<Option<FrameBuffer>, ValidationError> {
    let cycle = cycle_duration_ms(
        SPEED,
        content_width(&message.text),
        usize::from(config.width),
    );
    render_message_frame(config, message, elapsed_ms, cycle, |t| travelled(t, SPEED))
}

fn numbered_frame(origin: PixelOrigin, serpentine: bool) -> FrameBuffer {
    let config = DisplayConfig {
        width: 3,
        height: 2,
        brightness: 96,
        serpentine,
        origin,
    };
    let mut frame = FrameBuffer::new(&config);
    for (index, value) in (1_u8..=6).enumerate() {
        frame.set((index % 3) as i32, (index / 3) as i32, value);
    }
    frame
}

#[test]
fn message_can_be_wider_than_display() {
    let text = "AN ARBITRARILY LONG LEDDY MESSAGE";
    assert!(content_width(text) > usize::from(config().width));
}

#[test]
fn renderer_writes_pixels_without_overflowing() {
    let mut frame = FrameBuffer::new(&config());
    render_text_5x7(&mut frame, "LEDDY", 0);
    assert_eq!(frame.row_major().len(), 1_000);
    assert!(frame.row_major().iter().any(|pixel| *pixel != 0));
    assert_eq!(frame.serpentine().len(), 1_000);
    assert_eq!(frame.device_order().len(), 1_000);
}

#[test]
fn scroll_is_periodic() {
    let width = content_width("HELLO");
    let first = scroll_offset_after(travelled(0, 20.0), width, 100, ScrollDirection::Left);
    let cycle_ms = cycle_duration_ms(20.0, width, 100).expect("valid speed");
    let second = scroll_offset_after(travelled(cycle_ms, 20.0), width, 100, ScrollDirection::Left);
    assert_eq!(first, second);
}

#[test]
fn device_order_respects_origin_without_serpentine_wiring() {
    assert_eq!(
        numbered_frame(PixelOrigin::TopLeft, false).device_order(),
        vec![1, 2, 3, 4, 5, 6]
    );
    assert_eq!(
        numbered_frame(PixelOrigin::TopRight, false).device_order(),
        vec![3, 2, 1, 6, 5, 4]
    );
    assert_eq!(
        numbered_frame(PixelOrigin::BottomLeft, false).device_order(),
        vec![4, 5, 6, 1, 2, 3]
    );
    assert_eq!(
        numbered_frame(PixelOrigin::BottomRight, false).device_order(),
        vec![6, 5, 4, 3, 2, 1]
    );
}

#[test]
fn device_order_respects_origin_with_serpentine_wiring() {
    assert_eq!(
        numbered_frame(PixelOrigin::TopLeft, true).device_order(),
        vec![1, 2, 3, 6, 5, 4]
    );
    assert_eq!(
        numbered_frame(PixelOrigin::TopRight, true).device_order(),
        vec![3, 2, 1, 4, 5, 6]
    );
    assert_eq!(
        numbered_frame(PixelOrigin::BottomLeft, true).device_order(),
        vec![4, 5, 6, 3, 2, 1]
    );
    assert_eq!(
        numbered_frame(PixelOrigin::BottomRight, true).device_order(),
        vec![6, 5, 4, 1, 2, 3]
    );
}

#[test]
fn once_playback_stops_after_one_cycle() {
    let message = message(RepeatMode::Once);
    let cycle = cycle_duration_ms(
        SPEED,
        content_width(&message.text),
        usize::from(config().width),
    )
    .expect("valid speed");

    assert!(render(&config(), &message, cycle - 1)
        .expect("valid message")
        .is_some());
    assert!(render(&config(), &message, cycle)
        .expect("valid message")
        .is_none());
}

#[test]
fn counted_playback_stops_after_requested_cycles() {
    let message = message(RepeatMode::Count(2));
    let cycle = cycle_duration_ms(
        SPEED,
        content_width(&message.text),
        usize::from(config().width),
    )
    .expect("valid speed");

    assert!(render(&config(), &message, cycle)
        .expect("valid message")
        .is_some());
    assert!(render(&config(), &message, cycle.saturating_mul(2))
        .expect("valid message")
        .is_none());
}

#[test]
fn forever_playback_remains_active() {
    let message = message(RepeatMode::Forever);
    assert!(render(&config(), &message, u64::MAX)
        .expect("valid message")
        .is_some());
}

// Further cases.

#[test]
fn content_width_counts_glyphs_and_gaps() {
    assert_eq!(content_width(""), 0);
    assert_eq!(content_width("A"), 5);
    assert_eq!(content_width("HELLO"), 29);
    assert_eq!(content_width("ÄÖ"), 11);
}

#[test]
fn new_frame_is_dark_and_sized() {
    let frame = FrameBuffer::new(&config());
    assert_eq!(frame.width(), 100);
    assert_eq!(frame.height(), 10);
    assert!(frame.row_major().iter().all(|pixel| *pixel == 0));
}

#[test]
fn set_ignores_pixels_outside_the_panel() {
    let mut frame = numbered_frame(PixelOrigin::TopLeft, false);
    frame.set(-1, 0, 9);
    frame.set(0, -1, 9);
    frame.set(3, 0, 9);
    frame.set(0, 2, 9);
    assert_eq!(frame.row_major(), &[1, 2, 3, 4, 5, 6]);
    frame.set(2, 1, 9);
    assert_eq!(frame.get(2, 1), 9);
    frame.clear();
    assert_eq!(frame.row_major(), &[0, 0, 0, 0, 0, 0]);
}

#[test]
fn serpentine_reverses_odd_rows() {
    let frame = numbered_frame(PixelOrigin::BottomRight, false);
    assert_eq!(frame.serpentine(), vec![1, 2, 3, 6, 5, 4]);
}

#[test]
fn top_left_chain_without_serpentine_is_row_major() {
    let frame = numbered_frame(PixelOrigin::TopLeft, false);
    assert_eq!(frame.device_order(), frame.row_major().to_vec());
    let serpentine = numbered_frame(PixelOrigin::TopLeft, true);
    assert_eq!(serpentine.device_order(), serpentine.serpentine());
}

#[test]
fn chain_order_is_a_permutation() {
    for origin in [
        PixelOrigin::TopLeft,
        PixelOrigin::TopRight,
        PixelOrigin::BottomLeft,
        PixelOrigin::BottomRight,
    ] {
        for wiring in [false, true] {
            let mut order = numbered_frame(origin, wiring).device_order();
            order.sort();
            assert_eq!(order, vec![1, 2, 3, 4, 5, 6]);
        }
    }
}

#[test]
fn glyph_is_drawn_centred_and_scrolled() {
    let config = DisplayConfig {
        width: 6,
        height: 9,
        brightness: 1,
        serpentine: false,
        origin: PixelOrigin::TopLeft,
    };
    let mut frame = FrameBuffer::new(&config);
    render_text_5x7(&mut frame, "I", 0);
    // 'I' has columns 0x00, 0x41, 0x7f, 0x41, 0x00; the text starts at row 1.
    for y in 0..9 {
        assert_eq!(frame.get(0, y), 0);
        assert_eq!(frame.get(4, y), 0);
        assert_eq!(frame.get(5, y), 0);
        let expected = if (1..8).contains(&y) { 255 } else { 0 };
        assert_eq!(frame.get(2, y), expected);
    }
    assert_eq!(frame.get(1, 1), 255);
    assert_eq!(frame.get(1, 7), 255);
    assert_eq!(frame.get(1, 4), 0);
    render_text_5x7(&mut frame, "I", 1);
    assert_eq!(frame.get(1, 4), 255);
    assert_eq!(frame.get(2, 4), 0);
}

#[test]
fn unknown_characters_use_the_question_mark() {
    let config = DisplayConfig {
        width: 5,
        height: 7,
        brightness: 1,
        serpentine: false,
        origin: PixelOrigin::TopLeft,
    };
    let mut unknown = FrameBuffer::new(&config);
    render_text_5x7(&mut unknown, "\u{263a}", 0);
    let mut question = FrameBuffer::new(&config);
    render_text_5x7(&mut question, "?", 0);
    assert_eq!(unknown.row_major(), question.row_major());
    assert!(question.row_major().iter().any(|pixel| *pixel != 0));
}

#[test]
fn scroll_offsets_in_both_directions() {
    assert_eq!(scroll_offset_after(0, 29, 100, ScrollDirection::Left), -100);
    assert_eq!(scroll_offset_after(130, 29, 100, ScrollDirection::Left), -99);
    assert_eq!(scroll_offset_after(0, 29, 100, ScrollDirection::Right), 29);
    assert_eq!(scroll_offset_after(10, 29, 100, ScrollDirection::Right), 19);
    assert_eq!(scroll_offset_after(7, 0, 0, ScrollDirection::Left), 0);
    // Widths beyond the range of `i32` keep their low 32 bits.
    assert_eq!(scroll_offset_after(0, usize::MAX, 0, ScrollDirection::Right), -1);
}

#[test]
fn playback_positions() {
    assert_eq!(playback_position(RepeatMode::Once, 100, 99), Some(99));
    assert_eq!(playback_position(RepeatMode::Once, 100, 100), None);
    assert_eq!(playback_position(RepeatMode::Count(3), 100, 250), Some(50));
    assert_eq!(playback_position(RepeatMode::Count(3), 100, 300), None);
    assert_eq!(playback_position(RepeatMode::Count(0), 100, 0), None);
    assert_eq!(playback_position(RepeatMode::Forever, 100, 1_234), Some(34));
    assert_eq!(
        playback_position(RepeatMode::Count(u32::MAX), u64::MAX, u64::MAX - 1),
        Some(u64::MAX - 1)
    );
}

#[test]
fn invalid_inputs_are_rejected() {
    let mut bad = config();
    bad.width = 0;
    assert!(render(&bad, &message(RepeatMode::Forever), 0).is_err());
    let mut unnamed = message(RepeatMode::Forever);
    unnamed.id = String::new();
    assert!(render(&config(), &unnamed, 0).is_err());
    assert_eq!(
        render_message_frame(&config(), &message(RepeatMode::Forever), 0, None, |_| 0).err(),
        Some(ValidationError("scroll speed must be a positive finite number"))
    );
}

#[test]
fn rendered_message_matches_direct_rendering() {
    let message = message(RepeatMode::Forever);
    let frame = render(&config(), &message, 1_000).expect("valid").expect("active");
    let offset = scroll_offset_after(
        travelled(1_000, SPEED),
        content_width(&message.text),
        100,
        ScrollDirection::Left,
    );
    let mut direct = FrameBuffer::new(&config());
    render_text_5x7(&mut direct, &message.text, offset);
    assert_eq!(frame, direct);
    assert!(frame.row_major().iter().any(|pixel| *pixel != 0));
}
