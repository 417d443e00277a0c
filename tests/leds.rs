use pos_firmware::color::{clock_divider, frame_words, RGBWParts, RGBW};
use pos_firmware::led::{LedOp, LedState};

#[test]
fn colour_constructors() {
    let c = RGBW::new(1, 2, 3, 4);
    assert_eq!((c.r, c.g, c.b, c.w), (1, 2, 3, 4));
    assert_eq!(RGBW::black(), RGBW::new(0, 0, 0, 0));
    assert_eq!(RGBW::full_on(), RGBW::new(255, 255, 255, 255));
}

#[test]
fn wire_order_is_green_red_blue_white() {
    let c = RGBW::new(0x11, 0x22, 0x33, 0x44);
    assert_eq!(c.raw32(), 0x2211_3344);
    assert_eq!(c.raw(), [0x44, 0x33, 0x11, 0x22]);
    assert_eq!(c.raw(), c.raw32().to_le_bytes());
    assert_eq!(c.parts(), RGBWParts { w: 0x44, b: 0x33, r: 0x11, g: 0x22 });
}

#[test]
fn frame_has_one_word_per_led() {
    let words = frame_words(&[RGBW::new(0, 10, 0, 0), RGBW::full_on()]);
    assert_eq!(words, vec![0x0A00_0000, 0xFFFF_FFFF]);
    assert!(frame_words(&[]).is_empty());
}

#[test]
fn led_states_and_transmissions() {
    let x = RGBW::new(7, 8, 9, 10);
    let states = [LedState::Color(x), LedState::Default, LedState::Noop];
    let frames: Vec<RGBW> = states.iter().filter_map(|s| s.frame()).collect();
    assert_eq!(frames, vec![x, RGBW::new(0, 10, 0, 0)]);
    assert_eq!(LedState::Off.frame(), Some(RGBW::black()));
}

#[test]
fn clock_divider_for_common_clocks() {
    // 125 MHz over 800 kHz times ten cycles is 15.625, or 4000 / 256.
    assert_eq!(clock_divider(125_000_000), 4000);
    // 133 MHz: 16.625, or 4256 / 256.
    assert_eq!(clock_divider(133_000_000), 4256);
    // 150 MHz: 18.75, or 4800 / 256.
    assert_eq!(clock_divider(150_000_000), 4800);
    assert_eq!(clock_divider(0), 0);
    assert_eq!(clock_divider(u32::MAX), 137_438);
}

#[test]
fn colour_default_noop_sends_two_latched_frames() {
    let x = RGBW::new(1, 2, 3, 4);
    let ops: Vec<LedOp> = [LedState::Color(x), LedState::Default, LedState::Noop]
        .iter()
        .flat_map(|s| s.ops())
        .collect();
    assert_eq!(
        ops,
        vec![
            LedOp::Transmit(x),
            LedOp::LatchGap,
            LedOp::Transmit(RGBW::new(0, 10, 0, 0)),
            LedOp::LatchGap,
        ]
    );
    assert!(LedState::Noop.ops().is_empty());
    assert_eq!(LedState::Off.ops(), vec![LedOp::Transmit(RGBW::black()), LedOp::LatchGap]);
}
