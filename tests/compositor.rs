use pos_firmware::bitmap::Bitmap;
use pos_firmware::images::{glyphs_for_price, image_from_char, Images};
use pos_firmware::printer::{
    blit_price, fits, print_commands, render_line, render_total, DriverEvent, ImageTable,
    PrinterCommand,
};

fn pixel(bm: &Bitmap, x: usize, y: usize) -> bool {
    let stride = (bm.width as usize + 7) / 8;
    (bm.data[y * stride + x / 8] >> (7 - x % 8)) & 1 == 1
}

fn filled(width: u16, height: u16) -> Bitmap {
    let mut bm = Bitmap::new(width, height);
    for y in 0..height as usize {
        for x in 0..width as usize {
            let stride = (width as usize + 7) / 8;
            bm.data[y * stride + x / 8] |= 1 << (7 - x % 8);
        }
    }
    bm
}

/// A glyph table in which image `i` is a solid block `i + 1` pixels wide.
fn table(height: u16) -> ImageTable {
    let images = (0..24u16).map(|i| filled(i + 1, height)).collect();
    ImageTable { images }
}

#[test]
fn full_source_copies_onto_cleared_destination() {
    let src = filled(16, 4);
    let mut dst = Bitmap::new(16, 4);
    dst.blit_image(&src, 0, 0);
    assert_eq!(dst, src);
}

#[test]
fn pattern_copies_at_origin() {
    let src = Bitmap { width: 8, height: 2, data: vec![0b1010_0101, 0b1100_0011] };
    let mut dst = Bitmap::new(8, 2);
    dst.blit_image(&src, 0, 0);
    assert_eq!(dst.data, src.data);
}

#[test]
fn out_of_bounds_pixels_are_dropped() {
    let src = filled(8, 8);
    let mut dst = Bitmap::new(10, 6);
    dst.blit_image(&src, 6, 3);
    for y in 0..6 {
        for x in 0..10 {
            assert_eq!(pixel(&dst, x, y), x >= 6 && y >= 3, "pixel ({x}, {y})");
        }
    }
    // Padding bits at the end of each row stay clear: no wraparound.
    for y in 0..6 {
        assert_eq!(dst.data[y * 2 + 1] & 0b0011_1111, 0);
    }
}

#[test]
fn blit_overwrites_rather_than_merges() {
    let mut dst = filled(8, 1);
    let blank = Bitmap::new(4, 1);
    dst.blit_image(&blank, 2, 0);
    assert_eq!(dst.data, vec![0b1100_0011]);
}

#[test]
fn offset_entirely_outside_changes_nothing() {
    let mut dst = Bitmap::new(8, 8);
    dst.blit_image(&filled(8, 8), 8, 0);
    dst.blit_image(&filled(8, 8), 0, 8);
    dst.blit_image(&filled(8, 8), u16::MAX, u16::MAX);
    assert!(dst.data.iter().all(|b| *b == 0));
}

#[test]
fn clear_blanks_every_byte() {
    let mut bm = filled(12, 3);
    bm.clear();
    assert_eq!(bm.data, vec![0; 6]);
    assert_eq!((bm.width, bm.height), (12, 3));
}

#[test]
fn head_shares_first_rows() {
    let mut bm = Bitmap::new(16, 4);
    bm.data[2] = 0xAA;
    bm.data[6] = 0x55;
    let view = bm.head(2);
    assert_eq!((view.width, view.height), (16, 2));
    assert_eq!(view.data, &[0, 0, 0xAA, 0][..]);
    assert_eq!(bm.head(0).data.len(), 0);
    assert_eq!(bm.head(4).data.len(), 8);
}

#[test]
fn price_zero_is_bare_symbol() {
    assert_eq!(
        glyphs_for_price(0),
        [Images::Pound, Images::Space, Images::Space, Images::Space, Images::Space]
    );
}

#[test]
fn price_ten_reads_right_to_left() {
    assert_eq!(
        glyphs_for_price(10),
        [Images::Zero, Images::One, Images::Pound, Images::Space, Images::Space]
    );
}

#[test]
fn price_layouts() {
    assert_eq!(
        glyphs_for_price(7),
        [Images::Seven, Images::Pound, Images::Space, Images::Space, Images::Space]
    );
    assert_eq!(
        glyphs_for_price(999),
        [Images::Nine, Images::Nine, Images::Nine, Images::Pound, Images::Space]
    );
    assert_eq!(
        glyphs_for_price(1234),
        [Images::Four, Images::Three, Images::Two, Images::One, Images::Pound]
    );
    assert_eq!(
        glyphs_for_price(65535),
        [Images::Five, Images::Three, Images::Five, Images::Five, Images::Six]
    );
}

#[test]
fn characters_map_to_glyphs() {
    assert_eq!(image_from_char(' '), Images::Space);
    assert_eq!(image_from_char('x'), Images::X);
    assert_eq!(image_from_char('£'), Images::Pound);
    assert_eq!(image_from_char('0'), Images::Zero);
    assert_eq!(image_from_char('5'), Images::Five);
    assert_eq!(image_from_char('9'), Images::Nine);
}

#[test]
fn price_glyphs_are_placed_leftward() {
    let t = table(2);
    let mut fb = Bitmap::new(64, 2);
    // 10 lays out as Zero (index 3, 4 px), One (index 4, 5 px), Pound (index 2, 3 px).
    blit_price(&mut fb, &t, 10, 60, 0);
    let lit: Vec<usize> = (0..64).filter(|x| pixel(&fb, *x, 0)).collect();
    let mut expected: Vec<usize> = Vec::new();
    expected.extend(56..60);
    expected.extend(46..51);
    expected.extend(38..41);
    // The spaces (1 px each) follow further left.
    expected.extend(32..33);
    expected.extend(26..27);
    expected.sort();
    assert_eq!(lit, expected);
}

#[test]
fn line_render_and_commands() {
    let t = table(4);
    let mut fb = filled(64, 8);
    let ev = DriverEvent::PrintLine { image: Images::Garlic, price: 1 };
    assert!(fits(&fb, &t, ev));
    let cmds = print_commands(&mut fb, &t, ev);
    // Garlic is index 16: 17 px wide and 4 rows tall.
    assert_eq!(cmds, vec![PrinterCommand::PrintFramebuffer { rows: 4 }]);
    for x in 0..64 {
        let expected = x < 17
            || (49..54).contains(&x)
            || (41..44).contains(&x)
            || (35..36).contains(&x)
            || (29..30).contains(&x)
            || (23..24).contains(&x);
        assert_eq!(pixel(&fb, x, 0), expected, "x = {x}");
        assert!(!pixel(&fb, x, 5));
    }
}

#[test]
fn total_render_and_commands() {
    let t = table(2);
    let mut fb = Bitmap::new(64, 100);
    let ev = DriverEvent::PrintTotal { price: 0 };
    assert!(fits(&fb, &t, ev));
    let cmds = print_commands(&mut fb, &t, ev);
    assert_eq!(
        cmds,
        vec![
            PrinterCommand::Feed(1),
            PrinterCommand::PrintFramebuffer { rows: 100 },
            PrinterCommand::LineFeeds(3),
        ]
    );
    // Footer is index 14: 15 px wide, 2 rows, at the origin.
    assert!(pixel(&fb, 14, 1) && !pixel(&fb, 15, 1));
    // The bare symbol (3 px) ends just left of x = 44 on row 90.
    assert!(pixel(&fb, 41, 90) && pixel(&fb, 43, 90) && !pixel(&fb, 44, 90) && !pixel(&fb, 40, 90));
}

#[test]
fn header_and_void_commands_leave_framebuffer() {
    let t = table(2);
    let mut fb = filled(16, 2);
    let before = fb.clone();
    assert_eq!(
        print_commands(&mut fb, &t, DriverEvent::PrintHeader),
        vec![PrinterCommand::PrintImage(Images::Header), PrinterCommand::LineFeeds(1)]
    );
    assert_eq!(
        print_commands(&mut fb, &t, DriverEvent::PrintVoid),
        vec![
            PrinterCommand::LineFeeds(1),
            PrinterCommand::PrintImage(Images::Void),
            PrinterCommand::LineFeeds(3),
        ]
    );
    assert_eq!(fb, before);
}

#[test]
fn price_that_does_not_fit_is_reported() {
    let t = table(2);
    let fb = Bitmap::new(30, 2);
    assert!(!fits(&fb, &t, DriverEvent::PrintLine { image: Images::Garlic, price: 999 }));
    assert!(!fits(&Bitmap::new(10, 2), &t, DriverEvent::PrintTotal { price: 0 }));
    let tall = Bitmap::new(384, 1);
    assert!(!fits(&tall, &t, DriverEvent::PrintLine { image: Images::Garlic, price: 1 }));
    let mut fb2 = Bitmap::new(384, 238);
    render_line(&mut fb2, &t, Images::Corn, 999);
    render_total(&mut fb2, &t, 999);
}
