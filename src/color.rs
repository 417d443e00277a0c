use fixed::types::U24F8;
use vstd::prelude::*;

verus! {

/// Sequencer cycles of the high phase that opens every bit.
pub const T1: u32 = 2;

/// Sequencer cycles whose level carries the data bit: high for 1, low for 0.
pub const T2: u32 = 5;

/// Sequencer cycles of the low phase that closes every bit.
pub const T3: u32 = 3;

/// Sequencer cycles in one bit period.
pub const CYCLES_PER_BIT: u32 = T1 + T2 + T3;

/// Symbol rate of the one-wire protocol, in kHz.
pub const SYMBOL_RATE_KHZ: u32 = 800;

/// Idle time after a frame before the LED has latched it, in microseconds.
pub const LATCH_GAP_MICROS: u64 = 55;

/// A four-channel colour as the status LED understands it.
#[derive(Clone, Copy, Debug, PartialEq, Eq, Structural)]
pub struct RGBW {
    pub r: u8,
    pub g: u8,
    pub b: u8,
    pub w: u8,
}

/// The colour's bytes in memory order of a little-endian wire word:
/// white first, green last.
#[derive(Clone, Copy, Debug, PartialEq, Eq, Structural)]
pub struct RGBWParts {
    pub w: u8,
    pub b: u8,
    pub r: u8,
    pub g: u8,
}

/// The bytes of a colour in the order in which they go out on the wire.
pub open spec fn wire_bytes(c: RGBW) -> Seq<u8> {
    seq![c.g, c.r, c.b, c.w]
}

/// The 32-bit word whose bits, most significant first, are the wire stream.
pub open spec fn wire_word(c: RGBW) -> int {
    c.g as int * 0x100_0000 + c.r as int * 0x1_0000 + c.b as int * 0x100 + c.w as int
}

impl RGBW {
    pub fn new(r: u8, g: u8, b: u8, w: u8) -> (c: Self)
        ensures
            c == (RGBW { r, g, b, w }),
    {
        RGBW { r, g, b, w }
    }

    pub fn black() -> (c: Self)
        ensures
            c == (RGBW { r: 0, g: 0, b: 0, w: 0 }),
    {
        Self::new(0, 0, 0, 0)
    }

    pub fn full_on() -> (c: Self)
        ensures
            c == (RGBW { r: 255, g: 255, b: 255, w: 255 }),
    {
        Self::new(255, 255, 255, 255)
    }

    /// The colour laid out as the wire word sits in memory.
    pub fn parts(&self) -> (p: RGBWParts)
        ensures
            p == (RGBWParts { w: self.w, b: self.b, r: self.r, g: self.g }),
    {
        RGBWParts { w: self.w, b: self.b, r: self.r, g: self.g }
    }

    /// The bytes of the wire word in little-endian memory order.
    pub fn raw(&self) -> (bytes: [u8; 4])
        ensures
            bytes@ == seq![self.w, self.b, self.r, self.g],
            bytes@ == wire_bytes(*self).reverse(),
    {
        let bytes = [self.w, self.b, self.r, self.g];
        assert(bytes@ =~= wire_bytes(*self).reverse());
        bytes
    }

    /// The word handed to the sequencer, shifted out most significant bit first.
    pub fn raw32(&self) -> (word: u32)
        ensures
            word as int == wire_word(*self),
    {
        (self.g as u32) * 0x100_0000 + (self.r as u32) * 0x1_0000 + (self.b as u32) * 0x100
            + (self.w as u32)
    }
}

/// The words for a frame of colours, one per LED, in chain order.
pub fn frame_words(colors: &[RGBW]) -> (words: Vec<u32>)
    ensures
        words@.len() == colors@.len(),
        forall|i: int| 0 <= i < colors@.len() ==> words@[i] as int == wire_word(#[trigger] colors@[i]),
{
    let mut words: Vec<u32> = Vec::new();
    let mut i: usize = 0;
    while i < colors.len()
        invariant
            i <= colors@.len(),
            words@.len() == i,
            forall|j: int| 0 <= j < i ==> words@[j] as int == wire_word(#[trigger] colors@[j]),
        decreases colors@.len() - i,
    {
        words.push(colors[i].raw32());
        i = i + 1;
    }
    words
}

/// The sequencer's clock divider as 24.8 fixed-point bits, for a system clock
/// of `clk_sys_hz`: the clock in kHz over the rate of sequencer cycles.
pub open spec fn divider_bits(clk_sys_hz: u32) -> int {
    ((clk_sys_hz as int / 1000) * 256 * 256) / (SYMBOL_RATE_KHZ as int * 256 * CYCLES_PER_BIT as int)
}

/// Relies on fixed's `from_num` for an integer that fits in 24 bits: the value
/// shifted left by the eight fraction bits.
#[verifier::external_body]
fn fixed_from_int(n: u32) -> (bits: u32)
    requires
        n < 0x100_0000,
    ensures
        bits as int == n as int * 256,
{
    U24F8::from_num(n).to_bits()
}

/// Relies on fixed's `Mul<u32>`: the bits multiplied by the integer.
#[verifier::external_body]
fn fixed_mul_int(bits: u32, m: u32) -> (prod: u32)
    requires
        bits as int * m as int <= u32::MAX,
    ensures
        prod as int == bits as int * m as int,
{
    (U24F8::from_bits(bits) * m).to_bits()
}

/// Relies on fixed's `Div`: the dividend's bits widened, shifted left by the
/// eight fraction bits, and divided by the divisor's bits, rounding down.
#[verifier::external_body]
fn fixed_div(num: u32, den: u32) -> (quot: u32)
    requires
        den > 0,
        (num as int * 256) / (den as int) <= u32::MAX,
    ensures
        quot as int == (num as int * 256) / (den as int),
{
    (U24F8::from_bits(num) / U24F8::from_bits(den)).to_bits()
}

/// The clock divider that makes one bit last `CYCLES_PER_BIT` sequencer cycles
/// at the protocol's symbol rate, as 24.8 fixed-point bits.
pub fn clock_divider(clk_sys_hz: u32) -> (bits: u32)
    ensures
        bits as int == divider_bits(clk_sys_hz),
{
    let khz = clk_sys_hz / 1000;
    let clock_freq = fixed_from_int(khz);
    let symbol_freq = fixed_from_int(SYMBOL_RATE_KHZ);
    let bit_freq = fixed_mul_int(symbol_freq, CYCLES_PER_BIT);
    assert((clock_freq as int * 256) / (bit_freq as int) <= u32::MAX) by {
        assert(clock_freq as int * 256 <= 4294967 * 65536) by (nonlinear_arith)
            requires clock_freq as int == khz as int * 256, khz <= 4294967;
        assert((clock_freq as int * 256) / 2048000 <= (4294967 * 65536) / 2048000) by (nonlinear_arith)
            requires clock_freq as int * 256 <= 4294967 * 65536;
    }
    fixed_div(clock_freq, bit_freq)
}

} // verus!
