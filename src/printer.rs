use vstd::prelude::*;

use crate::bitmap::{
    lemma_shows_concat, lemma_shows_none, lemma_shows_one_more, shows_layers, Bitmap, Layer,
};
use crate::images::{glyphs_for_price, image_index, price_layout, Images, IMAGE_COUNT, PRICE_SLOTS};

verus! {

/// Width of the framebuffer, in pixels: the printer's full line.
pub const FB_WIDTH: u16 = 384;

/// Height of the framebuffer, in pixels.
pub const FB_HEIGHT: u16 = 238;

/// Pixels between two glyphs of a price.
pub const GUTTER: u16 = 5;

/// Right margin of the price on an item line.
pub const LINE_PRICE_MARGIN: u16 = 10;

/// Right margin of the price on the total.
pub const TOTAL_PRICE_MARGIN: u16 = 20;

/// Row at which the price of the total is drawn inside the footer.
pub const TOTAL_PRICE_ROW: u16 = 90;

/// What the state machine asks the print driver to put on paper.
#[derive(Clone, Copy, Debug, PartialEq, Eq, Structural)]
pub enum DriverEvent {
    PrintHeader,
    PrintLine { image: Images, price: u16 },
    PrintTotal { price: u16 },
    PrintVoid,
}

/// One request to the printer.
#[derive(Clone, Copy, Debug, PartialEq, Eq, Structural)]
pub enum PrinterCommand {
    /// Print an image of the glyph table as it is.
    PrintImage(Images),
    /// Print the first `rows` rows of the framebuffer.
    PrintFramebuffer { rows: u16 },
    /// Send this many raw line-feed bytes.
    LineFeeds(u8),
    /// Feed the paper by this many lines.
    Feed(u8),
}

/// The pre-rendered images, one per `Images` value, in table order.
pub struct ImageTable {
    pub images: Vec<Bitmap>,
}

impl ImageTable {
    pub open spec fn wf(&self) -> bool {
        &&& self.images@.len() == IMAGE_COUNT
        &&& forall|i: int| 0 <= i < IMAGE_COUNT ==> (#[trigger] self.images@[i]).wf()
    }

    pub open spec fn image(&self, img: Images) -> Bitmap {
        self.images@[image_index(img)]
    }

    /// The bitmap of an image.
    pub fn get(&self, img: Images) -> (bm: &Bitmap)
        requires
            self.wf(),
        ensures
            *bm == self.image(img),
            bm.wf(),
    {
        &self.images[img.index()]
    }
}

/// The bitmap of glyph `i` of the layout of `price`.
pub open spec fn price_glyph(table: ImageTable, price: int, i: int) -> Bitmap {
    table.image(price_layout(price)[i])
}

/// The cursor before glyph `i` of a price is placed: it starts at `start`
/// and moves left by each glyph's width and a gutter.
pub open spec fn cursor(table: ImageTable, price: int, start: int, i: int) -> int
    decreases i,
{
    if i <= 0 {
        start
    } else {
        cursor(table, price, start, i - 1) - price_glyph(table, price, i - 1).width - GUTTER
    }
}

/// The first `n` glyphs of a price as layers: glyph `i` ends just left of
/// cursor `i`, on row `y`.
pub open spec fn price_layers(table: ImageTable, price: int, start: int, y: int, n: int) -> Seq<Layer> {
    Seq::new(
        n as nat,
        |i: int|
            (
                price_glyph(table, price, i),
                cursor(table, price, start, i) - price_glyph(table, price, i).width,
                y,
            ),
    )
}

/// The price's glyphs, gutters included, fit left of `start`.
pub open spec fn price_fits(table: ImageTable, price: int, start: int) -> bool {
    cursor(table, price, start, PRICE_SLOTS as int) >= 0
}

/// The layers of an item line: the icon at the origin, then the price.
pub open spec fn line_layers(table: ImageTable, image: Images, price: int, fb_width: int) -> Seq<Layer> {
    seq![(table.image(image), 0, 0)] + price_layers(
        table,
        price,
        fb_width - LINE_PRICE_MARGIN,
        0,
        PRICE_SLOTS as int,
    )
}

/// The layers of a total: the footer at the origin, then the price inside it.
pub open spec fn total_layers(table: ImageTable, price: int, fb_width: int) -> Seq<Layer> {
    seq![(table.image(Images::Footer), 0, 0)] + price_layers(
        table,
        price,
        fb_width - TOTAL_PRICE_MARGIN,
        TOTAL_PRICE_ROW as int,
        PRICE_SLOTS as int,
    )
}

/// All-zero bytes, as many as a cleared buffer of this length holds.
pub open spec fn zeros(n: int) -> Seq<u8> {
    Seq::new(n as nat, |i: int| 0u8)
}

proof fn lemma_cursor_decreases(table: ImageTable, price: int, start: int, i: int, j: int)
    requires
        0 <= i <= j,
    ensures
        cursor(table, price, start, j) <= cursor(table, price, start, i),
    decreases j - i,
{
    if i < j {
        lemma_cursor_decreases(table, price, start, i, j - 1);
    }
}

/// Draws the five glyphs of `price` right to left: glyph `i` goes just left of
/// the cursor, which then moves left by the glyph's width and a gutter.
pub fn blit_price(fb: &mut Bitmap, table: &ImageTable, price: u16, start_x: u16, y: u16)
    requires
        old(fb).wf(),
        table.wf(),
        price_fits(*table, price as int, start_x as int),
    ensures
        final(fb).width == old(fb).width,
        final(fb).height == old(fb).height,
        final(fb).wf(),
        shows_layers(
            final(fb).data@,
            old(fb).data@,
            old(fb).width as int,
            old(fb).height as int,
            price_layers(*table, price as int, start_x as int, y as int, PRICE_SLOTS as int),
        ),
{
    let ghost w = fb.width as int;
    let ghost h = fb.height as int;
    let ghost base = fb.data@;
    let glyphs = glyphs_for_price(price);
    let mut cur_x: u16 = start_x;
    let mut i: usize = 0;
    proof {
        lemma_shows_none(base, w, h);
        assert(price_layers(*table, price as int, start_x as int, y as int, 0) =~= Seq::<Layer>::empty());
    }
    while i < PRICE_SLOTS
        invariant
            fb.wf(),
            fb.width == w,
            fb.height == h,
            table.wf(),
            glyphs@ == price_layout(price as int),
            price_fits(*table, price as int, start_x as int),
            0 <= i <= PRICE_SLOTS,
            cur_x as int == cursor(*table, price as int, start_x as int, i as int),
            shows_layers(fb.data@, base, w, h, price_layers(*table, price as int, start_x as int, y as int, i as int)),
        decreases PRICE_SLOTS - i,
    {
        let img = table.get(glyphs[i]);
        proof {
            lemma_cursor_decreases(*table, price as int, start_x as int, i as int + 1, PRICE_SLOTS as int);
        }
        let ghost mid = fb.data@;
        fb.blit_image(img, cur_x - img.width, y);
        proof {
            let before = price_layers(*table, price as int, start_x as int, y as int, i as int);
            lemma_shows_one_more(mid, fb.data@, base, w, h, before, *img, (cur_x - img.width) as int, y as int);
            assert(before.push((*img, (cur_x - img.width) as int, y as int))
                =~= price_layers(*table, price as int, start_x as int, y as int, i as int + 1));
        }
        cur_x = cur_x - (img.width + GUTTER);
        i = i + 1;
    }
}

/// Renders an item line into the framebuffer: cleared, the item's icon at the
/// origin, and its price right-aligned on the top row.
pub fn render_line(fb: &mut Bitmap, table: &ImageTable, image: Images, price: u16)
    requires
        old(fb).wf(),
        table.wf(),
        old(fb).width >= LINE_PRICE_MARGIN,
        price_fits(*table, price as int, old(fb).width - LINE_PRICE_MARGIN),
    ensures
        final(fb).width == old(fb).width,
        final(fb).height == old(fb).height,
        final(fb).wf(),
        shows_layers(
            final(fb).data@,
            zeros(old(fb).data@.len() as int),
            old(fb).width as int,
            old(fb).height as int,
            line_layers(*table, image, price as int, old(fb).width as int),
        ),
{
    let ghost w = fb.width as int;
    let ghost h = fb.height as int;
    fb.clear();
    let ghost cleared = fb.data@;
    assert(cleared =~= zeros(cleared.len() as int));
    let icon = table.get(image);
    fb.blit_image(icon, 0, 0);
    let ghost with_icon = fb.data@;
    proof {
        lemma_shows_none(cleared, w, h);
        lemma_shows_one_more(cleared, with_icon, cleared, w, h, Seq::empty(), *icon, 0, 0);
        assert(Seq::<Layer>::empty().push((*icon, 0int, 0int)) =~= seq![(table.image(image), 0int, 0int)]);
    }
    let start = fb.width - LINE_PRICE_MARGIN;
    blit_price(fb, table, price, start, 0);
    proof {
        lemma_shows_concat(
            with_icon,
            fb.data@,
            cleared,
            w,
            h,
            seq![(table.image(image), 0int, 0int)],
            price_layers(*table, price as int, start as int, 0, PRICE_SLOTS as int),
        );
    }
}

/// Renders the total into the framebuffer: cleared, the footer at the origin,
/// and the price right-aligned inside it.
pub fn render_total(fb: &mut Bitmap, table: &ImageTable, price: u16)
    requires
        old(fb).wf(),
        table.wf(),
        old(fb).width >= TOTAL_PRICE_MARGIN,
        price_fits(*table, price as int, old(fb).width - TOTAL_PRICE_MARGIN),
    ensures
        final(fb).width == old(fb).width,
        final(fb).height == old(fb).height,
        final(fb).wf(),
        shows_layers(
            final(fb).data@,
            zeros(old(fb).data@.len() as int),
            old(fb).width as int,
            old(fb).height as int,
            total_layers(*table, price as int, old(fb).width as int),
        ),
{
    let ghost w = fb.width as int;
    let ghost h = fb.height as int;
    fb.clear();
    let ghost cleared = fb.data@;
    assert(cleared =~= zeros(cleared.len() as int));
    let footer = table.get(Images::Footer);
    fb.blit_image(footer, 0, 0);
    let ghost with_footer = fb.data@;
    proof {
        lemma_shows_none(cleared, w, h);
        lemma_shows_one_more(cleared, with_footer, cleared, w, h, Seq::empty(), *footer, 0, 0);
        assert(Seq::<Layer>::empty().push((*footer, 0int, 0int)) =~= seq![
            (table.image(Images::Footer), 0int, 0int),
        ]);
    }
    let start = fb.width - TOTAL_PRICE_MARGIN;
    blit_price(fb, table, price, start, TOTAL_PRICE_ROW);
    proof {
        lemma_shows_concat(
            with_footer,
            fb.data@,
            cleared,
            w,
            h,
            seq![(table.image(Images::Footer), 0int, 0int)],
            price_layers(*table, price as int, start as int, TOTAL_PRICE_ROW as int, PRICE_SLOTS as int),
        );
    }
}

/// Whether the framebuffer has room for what an event draws: the price left
/// of its margin, and an item's icon within the framebuffer's height.
pub open spec fn event_fits(fb: Bitmap, table: ImageTable, event: DriverEvent) -> bool {
    match event {
        DriverEvent::PrintLine { image, price } => {
            &&& fb.width >= LINE_PRICE_MARGIN
            &&& price_fits(table, price as int, fb.width - LINE_PRICE_MARGIN)
            &&& table.image(image).height <= fb.height
        },
        DriverEvent::PrintTotal { price } => {
            &&& fb.width >= TOTAL_PRICE_MARGIN
            &&& price_fits(table, price as int, fb.width - TOTAL_PRICE_MARGIN)
        },
        _ => true,
    }
}

/// The printer requests for an event, in order.
pub open spec fn commands_for(event: DriverEvent, table: ImageTable, fb_height: u16) -> Seq<PrinterCommand> {
    match event {
        DriverEvent::PrintHeader => seq![
            PrinterCommand::PrintImage(Images::Header),
            PrinterCommand::LineFeeds(1),
        ],
        DriverEvent::PrintLine { image, .. } => seq![
            PrinterCommand::PrintFramebuffer { rows: table.image(image).height },
        ],
        DriverEvent::PrintTotal { .. } => seq![
            PrinterCommand::Feed(1),
            PrinterCommand::PrintFramebuffer { rows: fb_height },
            PrinterCommand::LineFeeds(3),
        ],
        DriverEvent::PrintVoid => seq![
            PrinterCommand::LineFeeds(1),
            PrinterCommand::PrintImage(Images::Void),
            PrinterCommand::LineFeeds(3),
        ],
    }
}

/// Whether the price's glyphs fit left of `start`, computed.
fn price_fits_exec(table: &ImageTable, price: u16, start: u16) -> (r: bool)
    requires
        table.wf(),
    ensures
        r == price_fits(*table, price as int, start as int),
{
    let glyphs = glyphs_for_price(price);
    let mut cur: i64 = start as i64;
    let mut i: usize = 0;
    while i < PRICE_SLOTS
        invariant
            table.wf(),
            glyphs@ == price_layout(price as int),
            0 <= i <= PRICE_SLOTS,
            cur as int == cursor(*table, price as int, start as int, i as int),
            start as int - 70000 * i <= cur <= start,
        decreases PRICE_SLOTS - i,
    {
        let img = table.get(glyphs[i]);
        cur = cur - img.width as i64 - GUTTER as i64;
        i = i + 1;
    }
    cur >= 0
}

/// Whether the framebuffer has room for what an event draws, computed.
pub fn fits(fb: &Bitmap, table: &ImageTable, event: DriverEvent) -> (r: bool)
    requires
        table.wf(),
    ensures
        r == event_fits(*fb, *table, event),
{
    match event {
        DriverEvent::PrintLine { image, price } => {
            fb.width >= LINE_PRICE_MARGIN && price_fits_exec(table, price, fb.width - LINE_PRICE_MARGIN)
                && table.get(image).height <= fb.height
        },
        DriverEvent::PrintTotal { price } => {
            fb.width >= TOTAL_PRICE_MARGIN && price_fits_exec(table, price, fb.width - TOTAL_PRICE_MARGIN)
        },
        _ => true,
    }
}

/// Handles one event of the print driver: draws what it needs into the
/// framebuffer and returns the printer requests, in order. A request to print
/// the framebuffer refers to its contents after this call.
pub fn print_commands(fb: &mut Bitmap, table: &ImageTable, event: DriverEvent) -> (cmds: Vec<PrinterCommand>)
    requires
        old(fb).wf(),
        table.wf(),
        event_fits(*old(fb), *table, event),
    ensures
        final(fb).width == old(fb).width,
        final(fb).height == old(fb).height,
        final(fb).wf(),
        cmds@ == commands_for(event, *table, old(fb).height),
        match event {
            DriverEvent::PrintLine { image, price } => shows_layers(
                final(fb).data@,
                zeros(old(fb).data@.len() as int),
                old(fb).width as int,
                old(fb).height as int,
                line_layers(*table, image, price as int, old(fb).width as int),
            ),
            DriverEvent::PrintTotal { price } => shows_layers(
                final(fb).data@,
                zeros(old(fb).data@.len() as int),
                old(fb).width as int,
                old(fb).height as int,
                total_layers(*table, price as int, old(fb).width as int),
            ),
            _ => *final(fb) == *old(fb),
        },
{
    let cmds = match event {
        DriverEvent::PrintHeader => {
            vec![PrinterCommand::PrintImage(Images::Header), PrinterCommand::LineFeeds(1)]
        },
        DriverEvent::PrintLine { image, price } => {
            render_line(fb, table, image, price);
            let rows = table.get(image).height;
            vec![PrinterCommand::PrintFramebuffer { rows }]
        },
        DriverEvent::PrintTotal { price } => {
            let mut cmds = vec![PrinterCommand::Feed(1)];
            render_total(fb, table, price);
            cmds.push(PrinterCommand::PrintFramebuffer { rows: fb.height });
            cmds.push(PrinterCommand::LineFeeds(3));
            cmds
        },
        DriverEvent::PrintVoid => {
            vec![
                PrinterCommand::LineFeeds(1),
                PrinterCommand::PrintImage(Images::Void),
                PrinterCommand::LineFeeds(3),
            ]
        },
    };
    assert(cmds@ =~= commands_for(event, *table, old(fb).height));
    cmds
}

} // verus!
