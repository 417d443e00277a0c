use vstd::prelude::*;
use vstd::slice::slice_subrange;

verus! {

/// Bytes per row of a packed one-bit-per-pixel image `width` pixels wide.
pub open spec fn stride(width: int) -> int {
    (width + 7) / 8
}

/// Bit `k` of `b`, counting from the least significant.
pub open spec fn bit(b: u8, k: int) -> bool {
    (b >> (k as u8)) & 1u8 == 1u8
}

/// The pixel at column `x`, row `y` of packed rows of the given width:
/// rows are `stride(width)` bytes long and the leftmost pixel of a byte is
/// its most significant bit.
pub open spec fn pixel_of(width: int, data: Seq<u8>, x: int, y: int) -> bool {
    bit(data[y * stride(width) + x / 8], 7 - x % 8)
}

/// The column of the pixel that bit `k` of byte `i` stands for.
pub open spec fn col_of(width: int, i: int, k: int) -> int {
    (i % stride(width)) * 8 + (7 - k)
}

/// The row of the pixel that byte `i` belongs to.
pub open spec fn row_of(width: int, i: int) -> int {
    i / stride(width)
}

/// Whether bit `k` of byte `i` is a pixel of a `width` by `height` image,
/// rather than padding at the end of a row.
pub open spec fn on_grid(width: int, height: int, i: int, k: int) -> bool {
    row_of(width, i) < height && 0 <= col_of(width, i, k) < width
}

/// Whether destination pixel (x, y) lies under a source of the given size
/// placed with its top-left corner at (xo, yo).
pub open spec fn in_rect(sw: int, sh: int, xo: int, yo: int, x: int, y: int) -> bool {
    xo <= x < xo + sw && yo <= y < yo + sh
}

/// A monochrome image: `height` rows of `stride(width)` bytes each, one bit
/// per pixel, most significant bit leftmost.
#[derive(Clone, Debug, PartialEq, Eq)]
pub struct Bitmap {
    pub width: u16,
    pub height: u16,
    pub data: Vec<u8>,
}

/// A read-only view of the first rows of a bitmap, sharing its bytes.
#[derive(Clone, Copy, Debug, PartialEq, Eq)]
pub struct BitmapRef<'a> {
    pub width: u16,
    pub height: u16,
    pub data: &'a [u8],
}

/// `new` holds `old` with a source blitted at (xo, yo): each bit that is a
/// pixel under the source takes the source pixel there, every other bit is kept.
pub open spec fn is_blit_of(
    new: Seq<u8>,
    old: Seq<u8>,
    width: int,
    height: int,
    src: Bitmap,
    xo: int,
    yo: int,
) -> bool {
    &&& new.len() == old.len()
    &&& forall|i: int, k: int|
        0 <= i < old.len() && 0 <= k < 8 ==> #[trigger] bit(new[i], k) == (if on_grid(
            width,
            height,
            i,
            k,
        ) && in_rect(
            src.width as int,
            src.height as int,
            xo,
            yo,
            col_of(width, i, k),
            row_of(width, i),
        ) {
            src.pixel(col_of(width, i, k) - xo, row_of(width, i) - yo)
        } else {
            bit(old[i], k)
        })
}

/// Pixel-level reading of a blit: every destination pixel under the source
/// shows the source, every other one is unchanged.
pub open spec fn pixels_after_blit(
    new: Seq<u8>,
    old: Seq<u8>,
    width: int,
    height: int,
    src: Bitmap,
    xo: int,
    yo: int,
) -> bool {
    forall|x: int, y: int|
        0 <= x < width && 0 <= y < height ==> #[trigger] pixel_of(width, new, x, y) == (if in_rect(
            src.width as int,
            src.height as int,
            xo,
            yo,
            x,
            y,
        ) {
            src.pixel(x - xo, y - yo)
        } else {
            pixel_of(width, old, x, y)
        })
}

/// Every bit that is not a pixel (row padding) is as it was.
pub open spec fn padding_kept(new: Seq<u8>, old: Seq<u8>, width: int, height: int) -> bool {
    &&& new.len() == old.len()
    &&& forall|i: int, k: int|
        0 <= i < old.len() && 0 <= k < 8 && !on_grid(width, height, i, k) ==> #[trigger] bit(new[i], k)
            == bit(old[i], k)
}

/// A source bitmap and the destination position of its top-left corner.
pub type Layer = (Bitmap, int, int);

/// Pixel (x, y) of `base` with the layers blitted over it in order: the last
/// layer that covers the pixel decides it.
pub open spec fn layered_pixel(width: int, base: Seq<u8>, layers: Seq<Layer>, x: int, y: int) -> bool
    decreases layers.len(),
{
    if layers.len() == 0 {
        pixel_of(width, base, x, y)
    } else {
        let l = layers.last();
        if in_rect(l.0.width as int, l.0.height as int, l.1, l.2, x, y) {
            l.0.pixel(x - l.1, y - l.2)
        } else {
            layered_pixel(width, base, layers.drop_last(), x, y)
        }
    }
}

/// `new` shows the layers blitted in order over `old`, whose padding it keeps.
pub open spec fn shows_layers(
    new: Seq<u8>,
    old: Seq<u8>,
    width: int,
    height: int,
    layers: Seq<Layer>,
) -> bool {
    &&& padding_kept(new, old, width, height)
    &&& forall|x: int, y: int|
        0 <= x < width && 0 <= y < height ==> #[trigger] pixel_of(width, new, x, y) == layered_pixel(
            width,
            old,
            layers,
            x,
            y,
        )
}

impl Bitmap {
    pub open spec fn wf(&self) -> bool {
        self.data@.len() == stride(self.width as int) * self.height
    }

    pub open spec fn pixel(&self, x: int, y: int) -> bool {
        pixel_of(self.width as int, self.data@, x, y)
    }

    /// A blank bitmap of the given size.
    pub fn new(width: u16, height: u16) -> (bm: Bitmap)
        ensures
            bm.wf(),
            bm.width == width,
            bm.height == height,
            forall|i: int| 0 <= i < bm.data@.len() ==> bm.data@[i] == 0,
    {
        let s: usize = (width as usize + 7) / 8;
        assert(s * height <= 8192 * 65535) by (nonlinear_arith)
            requires
                s <= 8192,
                height <= 65535,
        ;
        let n: usize = s * height as usize;
        let mut data: Vec<u8> = Vec::new();
        let mut i: usize = 0;
        while i < n
            invariant
                i <= n,
                data@.len() == i,
                forall|j: int| 0 <= j < i ==> data@[j] == 0,
            decreases n - i,
        {
            data.push(0);
            i = i + 1;
        }
        Bitmap { width, height, data }
    }

    /// Switches every pixel off, padding bits included.
    pub fn clear(&mut self)
        ensures
            final(self).width == old(self).width,
            final(self).height == old(self).height,
            final(self).data@.len() == old(self).data@.len(),
            forall|i: int| 0 <= i < final(self).data@.len() ==> final(self).data@[i] == 0,
    {
        let n = self.data.len();
        let mut i: usize = 0;
        while i < n
            invariant
                i <= n,
                n == self.data@.len(),
                self.width == old(self).width,
                self.height == old(self).height,
                forall|j: int| 0 <= j < i ==> self.data@[j] == 0,
            decreases n - i,
        {
            self.data.set(i, 0);
            i = i + 1;
        }
    }

    /// The first `rows` rows, at the same width and stride, without copying.
    pub fn head(&self, rows: u16) -> (view: BitmapRef<'_>)
        requires
            self.wf(),
            rows <= self.height,
        ensures
            view.width == self.width,
            view.height == rows,
            view.data@ == self.data@.subrange(0, stride(self.width as int) * rows),
    {
        let s: usize = (self.width as usize + 7) / 8;
        proof {
            lemma_mul_le(s as int, rows as int, self.height as int);
            assert(s * self.height <= 8192 * 65535) by (nonlinear_arith)
                requires
                    s <= 8192,
                    self.height <= 65535,
            ;
        }
        let n: usize = s * rows as usize;
        BitmapRef { width: self.width, height: rows, data: slice_subrange(self.data.as_slice(), 0, n) }
    }

    /// Copies `src` onto this bitmap with its top-left corner at
    /// (x_offset, y_offset). Pixels that would land outside are dropped; pixels
    /// inside are overwritten, whether the source pixel is set or not.
    pub fn blit_image(&mut self, src: &Bitmap, x_offset: u16, y_offset: u16)
        requires
            old(self).wf(),
            src.wf(),
        ensures
            final(self).width == old(self).width,
            final(self).height == old(self).height,
            final(self).wf(),
            is_blit_of(
                final(self).data@,
                old(self).data@,
                old(self).width as int,
                old(self).height as int,
                *src,
                x_offset as int,
                y_offset as int,
            ),
            pixels_after_blit(
                final(self).data@,
                old(self).data@,
                old(self).width as int,
                old(self).height as int,
                *src,
                x_offset as int,
                y_offset as int,
            ),
            padding_kept(final(self).data@, old(self).data@, old(self).width as int, old(self).height as int),
    {
        let ghost old_data = self.data@;
        let ghost w = self.width as int;
        let ghost h = self.height as int;
        let ghost sw = src.width as int;
        let ghost sh = src.height as int;
        let ghost xo = x_offset as int;
        let ghost yo = y_offset as int;
        let dest_stride: usize = (self.width as usize + 7) / 8;
        let src_stride: usize = (src.width as usize + 7) / 8;
        let mut y: u16 = 0;
        while y < src.height
            invariant
                self.width == w,
                self.height == h,
                self.wf(),
                self.data@.len() == old_data.len(),
                src.wf(),
                sw == src.width,
                sh == src.height,
                xo == x_offset,
                yo == y_offset,
                dest_stride == stride(w),
                src_stride == stride(sw),
                0 <= y <= sh,
                forall|i: int, k: int|
                    0 <= i < old_data.len() && 0 <= k < 8 ==> #[trigger] bit(self.data@[i], k) == (
                    if on_grid(w, h, i, k) && in_rect(sw, sh, xo, yo, col_of(w, i, k), row_of(w, i))
                        && row_of(w, i) - yo < y {
                        src.pixel(col_of(w, i, k) - xo, row_of(w, i) - yo)
                    } else {
                        bit(old_data[i], k)
                    }),
            decreases sh - y,
        {
            let dy: u32 = y as u32 + y_offset as u32;
            if dy < self.height as u32 {
                let mut x: u16 = 0;
                while x < src.width
                    invariant
                        self.width == w,
                        self.height == h,
                        self.wf(),
                        self.data@.len() == old_data.len(),
                        src.wf(),
                        sw == src.width,
                        sh == src.height,
                        xo == x_offset,
                        yo == y_offset,
                        dest_stride == stride(w),
                        src_stride == stride(sw),
                        0 <= y < sh,
                        dy == y + yo,
                        dy < h,
                        0 <= x <= sw,
                        forall|i: int, k: int|
                            0 <= i < old_data.len() && 0 <= k < 8 ==> #[trigger] bit(self.data@[i], k)
                                == (if on_grid(w, h, i, k) && in_rect(
                                sw,
                                sh,
                                xo,
                                yo,
                                col_of(w, i, k),
                                row_of(w, i),
                            ) && (row_of(w, i) - yo < y || (row_of(w, i) - yo == y && col_of(w, i, k)
                                - xo < x)) {
                                src.pixel(col_of(w, i, k) - xo, row_of(w, i) - yo)
                            } else {
                                bit(old_data[i], k)
                            }),
                    decreases sw - x,
                {
                    let dx: u32 = x as u32 + x_offset as u32;
                    if dx < self.width as u32 {
                        proof {
                            lemma_pixel_index(sw, sh, x as int, y as int);
                            lemma_pixel_index(w, h, dx as int, dy as int);
                        }
                        assert(y as int * src_stride + x as int / 8 < src.data@.len());
                        assert(y as int * src_stride <= 65535 * 8192) by (nonlinear_arith)
                            requires
                                y <= 65535,
                                src_stride <= 8192,
                        ;
                        assert(dy as int * dest_stride <= 65535 * 8192) by (nonlinear_arith)
                            requires
                                dy <= 65535,
                                dest_stride <= 8192,
                        ;
                        let src_byte = src.data[y as usize * src_stride + (x / 8) as usize];
                        let src_bit: u8 = 7 - (x % 8) as u8;
                        let dest_idx: usize = dy as usize * dest_stride + (dx / 8) as usize;
                        let dest_bit: u8 = 7 - (dx % 8) as u8;
                        let on = (src_byte >> src_bit) & 1 == 1;
                        assert(on == src.pixel(x as int, y as int));
                        let ghost before = self.data@;
                        let cur = self.data[dest_idx];
                        let next: u8 = if on {
                            cur | (1u8 << dest_bit)
                        } else {
                            cur & !(1u8 << dest_bit)
                        };
                        proof {
                            lemma_set_bit(cur, dest_bit, on, next);
                        }
                        self.data.set(dest_idx, next);
                        assert forall|i: int, k: int|
                            0 <= i < old_data.len() && 0 <= k < 8 implies #[trigger] bit(
                                self.data@[i],
                                k,
                            ) == (if on_grid(w, h, i, k) && in_rect(
                                sw,
                                sh,
                                xo,
                                yo,
                                col_of(w, i, k),
                                row_of(w, i),
                            ) && (row_of(w, i) - yo < y || (row_of(w, i) - yo == y && col_of(w, i, k)
                                - xo < x + 1)) {
                                src.pixel(col_of(w, i, k) - xo, row_of(w, i) - yo)
                            } else {
                                bit(old_data[i], k)
                            }) by {
                            if on_grid(w, h, i, k) {
                                lemma_grid_index(w, h, i, k);
                            }
                            if i == dest_idx as int && k == dest_bit as int {
                            } else {
                                assert(bit(self.data@[i], k) == bit(before[i], k));
                            }
                        }
                    } else {
                        assert forall|i: int, k: int|
                            0 <= i < old_data.len() && 0 <= k < 8 && on_grid(w, h, i, k) implies
                            !(row_of(w, i) == dy && col_of(w, i, k) == dx) by {}
                    }
                    x = x + 1;
                }
            }
            y = y + 1;
        }
        proof {
            lemma_blit_pixels(self.data@, old_data, w, h, *src, xo, yo);
        }
    }
}

proof fn lemma_mul_le(a: int, b: int, c: int)
    requires
        0 <= a,
        0 <= b <= c,
    ensures
        a * b <= a * c,
{
    assert(a * b <= a * c) by (nonlinear_arith)
        requires
            0 <= a,
            0 <= b <= c,
    ;
}

/// Where pixel (x, y) lives: its byte is in range and stands for that pixel.
proof fn lemma_pixel_index(w: int, h: int, x: int, y: int)
    requires
        0 <= x < w,
        0 <= y < h,
    ensures
        0 <= y * stride(w) + x / 8 < stride(w) * h,
        0 <= 7 - x % 8 < 8,
        row_of(w, y * stride(w) + x / 8) == y,
        col_of(w, y * stride(w) + x / 8, 7 - x % 8) == x,
        on_grid(w, h, y * stride(w) + x / 8, 7 - x % 8),
{
    let s = stride(w);
    assert(0 <= x / 8 < s);
    assert(0 <= y * s) by (nonlinear_arith)
        requires
            0 <= y,
            0 <= s,
    ;
    assert(y * s + x / 8 < s * h) by (nonlinear_arith)
        requires
            0 <= x / 8 < s,
            0 <= y < h,
    ;
    let i = y * s + x / 8;
    assert(i / s == y && i % s == x / 8) by (nonlinear_arith)
        requires
            i == y * s + x / 8,
            0 <= x / 8 < s,
            0 <= y,
    ;
}

/// Where bit `k` of byte `i` lives, for a bit that is a pixel.
proof fn lemma_grid_index(w: int, h: int, i: int, k: int)
    requires
        0 <= i,
        0 <= k < 8,
        on_grid(w, h, i, k),
    ensures
        row_of(w, i) * stride(w) + col_of(w, i, k) / 8 == i,
        7 - col_of(w, i, k) % 8 == k,
        0 <= col_of(w, i, k),
        0 <= row_of(w, i),
{
    let s = stride(w);
    assert(s > 0);
    assert(i == (i / s) * s + i % s) by (nonlinear_arith)
        requires
            s > 0,
    ;
    assert(0 <= i % s);
    assert(0 <= i / s) by (nonlinear_arith)
        requires
            s > 0,
            0 <= i,
    ;
    let c = col_of(w, i, k);
    assert(c / 8 == i % s && c % 8 == 7 - k);
}

/// Setting or clearing one bit of a byte leaves the other seven alone.
proof fn lemma_set_bit(cur: u8, kb: u8, on: bool, next: u8)
    requires
        kb < 8,
        next == (if on {
            cur | (1u8 << kb)
        } else {
            cur & !(1u8 << kb)
        }),
    ensures
        forall|k: int| 0 <= k < 8 ==> #[trigger] bit(next, k) == (if k == kb as int {
            on
        } else {
            bit(cur, k)
        }),
{
    assert forall|k: int| 0 <= k < 8 implies #[trigger] bit(next, k) == (if k == kb as int {
        on
    } else {
        bit(cur, k)
    }) by {
        let kk = k as u8;
        if on {
            assert(((cur | (1u8 << kb)) >> kk) & 1u8 == 1u8 <==> (kk == kb || (cur >> kk) & 1u8
                == 1u8)) by (bit_vector)
                requires
                    kb < 8,
                    kk < 8,
            ;
        } else {
            assert(((cur & !(1u8 << kb)) >> kk) & 1u8 == 1u8 <==> (kk != kb && (cur >> kk) & 1u8
                == 1u8)) by (bit_vector)
                requires
                    kb < 8,
                    kk < 8,
            ;
        }
    }
}

/// The byte-level account of a blit gives the pixel-level one.
proof fn lemma_blit_pixels(
    new: Seq<u8>,
    old: Seq<u8>,
    w: int,
    h: int,
    src: Bitmap,
    xo: int,
    yo: int,
)
    requires
        old.len() == stride(w) * h,
        is_blit_of(new, old, w, h, src, xo, yo),
    ensures
        pixels_after_blit(new, old, w, h, src, xo, yo),
        padding_kept(new, old, w, h),
{
    assert forall|x: int, y: int| 0 <= x < w && 0 <= y < h implies #[trigger] pixel_of(
        w,
        new,
        x,
        y,
    ) == (if in_rect(src.width as int, src.height as int, xo, yo, x, y) {
        src.pixel(x - xo, y - yo)
    } else {
        pixel_of(w, old, x, y)
    }) by {
        lemma_pixel_index(w, h, x, y);
        let i = y * stride(w) + x / 8;
        let k = 7 - x % 8;
        assert(pixel_of(w, new, x, y) == bit(new[i], k));
    }
}

/// Blitting one more layer over a bitmap that shows some layers shows them
/// all, the new one last.
pub proof fn lemma_shows_one_more(
    mid: Seq<u8>,
    new: Seq<u8>,
    old: Seq<u8>,
    w: int,
    h: int,
    layers: Seq<Layer>,
    src: Bitmap,
    xo: int,
    yo: int,
)
    requires
        shows_layers(mid, old, w, h, layers),
        pixels_after_blit(new, mid, w, h, src, xo, yo),
        padding_kept(new, mid, w, h),
    ensures
        shows_layers(new, old, w, h, layers.push((src, xo, yo))),
{
    let all = layers.push((src, xo, yo));
    assert(all.drop_last() =~= layers);
    assert forall|x: int, y: int| 0 <= x < w && 0 <= y < h implies #[trigger] pixel_of(w, new, x, y)
        == layered_pixel(w, old, all, x, y) by {
        assert(pixel_of(w, mid, x, y) == layered_pixel(w, old, layers, x, y));
    }
    assert forall|i: int, k: int|
        0 <= i < old.len() && 0 <= k < 8 && !on_grid(w, h, i, k) implies #[trigger] bit(new[i], k)
        == bit(old[i], k) by {
        assert(bit(mid[i], k) == bit(old[i], k));
    }
}

/// A bitmap shows no layers over itself.
pub proof fn lemma_shows_none(d: Seq<u8>, w: int, h: int)
    ensures
        shows_layers(d, d, w, h, Seq::empty()),
{
}

proof fn lemma_layered_concat(
    w: int,
    mid: Seq<u8>,
    base: Seq<u8>,
    first: Seq<Layer>,
    then: Seq<Layer>,
    x: int,
    y: int,
)
    requires
        pixel_of(w, mid, x, y) == layered_pixel(w, base, first, x, y),
    ensures
        layered_pixel(w, mid, then, x, y) == layered_pixel(w, base, first + then, x, y),
    decreases then.len(),
{
    if then.len() == 0 {
        assert(first + then =~= first);
    } else {
        assert((first + then).drop_last() =~= first + then.drop_last());
        lemma_layered_concat(w, mid, base, first, then.drop_last(), x, y);
    }
}

/// Layers blitted over a bitmap that already shows other layers: the result
/// shows them all, the earlier ones first.
pub proof fn lemma_shows_concat(
    mid: Seq<u8>,
    new: Seq<u8>,
    old: Seq<u8>,
    w: int,
    h: int,
    first: Seq<Layer>,
    then: Seq<Layer>,
)
    requires
        shows_layers(mid, old, w, h, first),
        shows_layers(new, mid, w, h, then),
    ensures
        shows_layers(new, old, w, h, first + then),
{
    assert forall|x: int, y: int| 0 <= x < w && 0 <= y < h implies #[trigger] pixel_of(w, new, x, y)
        == layered_pixel(w, old, first + then, x, y) by {
        assert(pixel_of(w, mid, x, y) == layered_pixel(w, old, first, x, y));
        lemma_layered_concat(w, mid, old, first, then, x, y);
    }
    assert forall|i: int, k: int|
        0 <= i < old.len() && 0 <= k < 8 && !on_grid(w, h, i, k) implies #[trigger] bit(new[i], k)
        == bit(old[i], k) by {
        assert(bit(mid[i], k) == bit(old[i], k));
    }
}

proof fn lemma_same_bits(a: u8, b: u8)
    requires
        forall|k: int| 0 <= k < 8 ==> #[trigger] bit(a, k) == bit(b, k),
    ensures
        a == b,
{
    assert(bit(a, 0) == bit(b, 0));
    assert(bit(a, 1) == bit(b, 1));
    assert(bit(a, 2) == bit(b, 2));
    assert(bit(a, 3) == bit(b, 3));
    assert(bit(a, 4) == bit(b, 4));
    assert(bit(a, 5) == bit(b, 5));
    assert(bit(a, 6) == bit(b, 6));
    assert(bit(a, 7) == bit(b, 7));
    assert(a == b) by (bit_vector)
        requires
            ((a >> 0u8) & 1u8 == 1u8) == ((b >> 0u8) & 1u8 == 1u8),
            ((a >> 1u8) & 1u8 == 1u8) == ((b >> 1u8) & 1u8 == 1u8),
            ((a >> 2u8) & 1u8 == 1u8) == ((b >> 2u8) & 1u8 == 1u8),
            ((a >> 3u8) & 1u8 == 1u8) == ((b >> 3u8) & 1u8 == 1u8),
            ((a >> 4u8) & 1u8 == 1u8) == ((b >> 4u8) & 1u8 == 1u8),
            ((a >> 5u8) & 1u8 == 1u8) == ((b >> 5u8) & 1u8 == 1u8),
            ((a >> 6u8) & 1u8 == 1u8) == ((b >> 6u8) & 1u8 == 1u8),
            ((a >> 7u8) & 1u8 == 1u8) == ((b >> 7u8) & 1u8 == 1u8),
    ;
}

/// A source blitted at the origin onto a destination of the same size leaves
/// the destination showing exactly the source; where their row padding also
/// agreed (as when both are blank there), the bytes are the source's bytes.
pub proof fn lemma_blit_same_size_copies(new: Seq<u8>, old: Seq<u8>, src: Bitmap)
    requires
        src.wf(),
        old.len() == src.data@.len(),
        is_blit_of(new, old, src.width as int, src.height as int, src, 0, 0),
    ensures
        forall|x: int, y: int|
            0 <= x < src.width && 0 <= y < src.height ==> #[trigger] pixel_of(src.width as int, new, x, y)
                == src.pixel(x, y),
        (forall|i: int, k: int|
            0 <= i < old.len() && 0 <= k < 8 && !on_grid(src.width as int, src.height as int, i, k)
                ==> #[trigger] bit(old[i], k) == bit(src.data@[i], k)) ==> new == src.data@,
{
    let w = src.width as int;
    let h = src.height as int;
    lemma_blit_pixels(new, old, w, h, src, 0, 0);
    assert forall|x: int, y: int| 0 <= x < w && 0 <= y < h implies #[trigger] pixel_of(w, new, x, y)
        == src.pixel(x, y) by {
        assert(in_rect(w, h, 0, 0, x, y));
    }
    if forall|i: int, k: int|
        0 <= i < old.len() && 0 <= k < 8 && !on_grid(w, h, i, k) ==> #[trigger] bit(old[i], k) == bit(
            src.data@[i],
            k,
        ) {
        assert forall|i: int| 0 <= i < new.len() implies new[i] == src.data@[i] by {
            assert forall|k: int| 0 <= k < 8 implies #[trigger] bit(new[i], k) == bit(src.data@[i], k) by {
                if on_grid(w, h, i, k) {
                    lemma_grid_index(w, h, i, k);
                    assert(in_rect(w, h, 0, 0, col_of(w, i, k), row_of(w, i)));
                }
            }
            lemma_same_bits(new[i], src.data@[i]);
        }
        assert(new =~= src.data@);
    }
}

/// A blit never reaches left of or above its offset, nor past the
/// destination's edges: pixels there keep their value, and a source that sticks
/// out is cut off rather than wrapped around.
pub proof fn lemma_blit_clips(new: Seq<u8>, old: Seq<u8>, w: int, h: int, src: Bitmap, xo: int, yo: int)
    requires
        old.len() == stride(w) * h,
        is_blit_of(new, old, w, h, src, xo, yo),
    ensures
        forall|x: int, y: int|
            0 <= x < w && 0 <= y < h && (x < xo || y < yo || x >= xo + src.width || y >= yo + src.height)
                ==> #[trigger] pixel_of(w, new, x, y) == pixel_of(w, old, x, y),
        forall|x: int, y: int|
            0 <= x < w && 0 <= y < h && xo <= x < xo + src.width && yo <= y < yo + src.height
                ==> #[trigger] pixel_of(w, new, x, y) == src.pixel(x - xo, y - yo),
{
    lemma_blit_pixels(new, old, w, h, src, xo, yo);
}

} // verus!
