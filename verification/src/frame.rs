//! From pixels to the bit stream of the LED chain.
use crate::color::{
    Channel, Color, ColorPattern, MAX_CHANNEL_BITS, MAX_COLOR_CHANNELS, channel_value, depth_sum,
    pattern_wf,
};
use crate::layout::{
    lemma_chain_index_onto, lemma_chain_index_range, lemma_pixel_of_chain_index, pixel_of,
};
use crate::iled::{IledConfig, IledModel, MAX_LEDS};
use crate::timing::{MAX_RESOLUTION, TimingConfig};
use vstd::arithmetic::div_mod::*;
use vstd::arithmetic::mul::*;
use vstd::prelude::*;

verus! {

/// Worst-case wire bits of one LED's color packet.
pub const MAX_TOTAL_CHANNEL_BITS: usize = MAX_COLOR_CHANNELS * 8;

/// Worst-case bytes of one LED's data: every wire bit becomes
/// `MAX_RESOLUTION` output bits.
pub const MAX_BYTES_PER_LED: usize = (MAX_TOTAL_CHANNEL_BITS * 8 + 7) / 8;

pub const MAX_LED_DATA_BYTES: usize = MAX_LEDS * MAX_BYTES_PER_LED;

/// The fastest bit rate: `MAX_RESOLUTION` sub-bits in `MIN_PATTERN_NS`.
pub const MAX_BIT_RATE_HZ: u64 = 8 * 1_000_000_000 / 1_000;

/// Bytes of low output that hold `MAX_RESET_NS` at `MAX_BIT_RATE_HZ`.
pub const MAX_RESET_BYTES: usize = 1_000;

/// The size of a frame: the worst case over all configurations. What a
/// smaller one leaves is zero, which makes the reset longer and does no harm.
pub const FRAME_LEN: usize = MAX_LED_DATA_BYTES + MAX_RESET_BYTES;

// ---------------------------------------------------------------------------
// Bits
// ---------------------------------------------------------------------------

/// Bit `i` of `v`.
pub open spec fn bit(v: u8, i: u8) -> bool {
    (v >> i) & 1u8 == 1u8
}

/// What one entry sends of a color: the channel's most significant bits.
pub open spec fn entry_bits(color: Color, entry: (Channel, u8)) -> Seq<bool> {
    Seq::new(entry.1 as nat, |k: int| bit(channel_value(entry.0, color), (7 - k) as u8))
}

/// What a color packet sends of a color.
pub open spec fn packet_bits(color: Color, entries: Seq<(Channel, u8)>) -> Seq<bool>
    decreases entries.len(),
{
    if entries.len() == 0 {
        seq![]
    } else {
        packet_bits(color, entries.drop_last()) + entry_bits(color, entries.last())
    }
}

/// The sub-bits of a symbol, most significant first.
pub open spec fn symbol_bits(symbol: u8, resolution: u8) -> Seq<bool> {
    Seq::new(resolution as nat, |k: int| bit(symbol, (resolution - 1 - k) as u8))
}

/// The symbol that a data bit is sent as.
pub open spec fn symbol_of(b: bool, t: TimingConfig) -> u8 {
    if b {
        t.pattern_high
    } else {
        t.pattern_low
    }
}

/// The sub-bits that a sequence of data bits is sent as.
pub open spec fn wire_bits(data: Seq<bool>, t: TimingConfig) -> Seq<bool>
    decreases data.len(),
{
    if data.len() == 0 {
        seq![]
    } else {
        wire_bits(data.drop_last(), t) + symbol_bits(symbol_of(data.last(), t), t.resolution)
    }
}

/// The sub-bits that one LED is sent.
pub open spec fn led_bits(color: Color, entries: Seq<(Channel, u8)>, t: TimingConfig) -> Seq<bool> {
    wire_bits(packet_bits(color, entries), t)
}

/// The number that bits stand for, most significant first.
pub open spec fn bits_value(bits: Seq<bool>) -> nat
    decreases bits.len(),
{
    if bits.len() == 0 {
        0
    } else {
        bits_value(bits.drop_last()) * 2 + if bits.last() {
            1nat
        } else {
            0
        }
    }
}

/// Bits in whole bytes, most significant first; a last part of a byte is
/// left out.
pub open spec fn packed(bits: Seq<bool>) -> Seq<u8> {
    Seq::new(bits.len() / 8, |p: int| bits_value(bits.subrange(8 * p, 8 * p + 8)) as u8)
}

/// Collects bits into bytes.
struct BitWriter {
    byte: u8,
    filled: u8,
    pos: usize,
    done: Ghost<Seq<bool>>,
}

impl BitWriter {
    /// What has been written to a buffer that held `base`.
    spec fn inv(self, buf: Seq<u8>, base: Seq<u8>) -> bool {
        &&& self.pos == self.done@.len()
        &&& self.filled == self.pos % 8
        &&& self.byte == bits_value(self.done@.skip(self.pos - self.filled))
        &&& self.pos / 8 <= base.len()
        &&& buf == packed(self.done@) + base.skip(self.pos as int / 8)
    }

    fn push(&mut self, buf: &mut [u8], b: bool, Ghost(base): Ghost<Seq<u8>>)
        requires
            old(self).inv(old(buf)@, base),
            (old(self).pos + 1) / 8 <= base.len(),
            old(self).pos < usize::MAX,
        ensures
            final(self).inv(final(buf)@, base),
            final(self).done@ == old(self).done@.push(b),
    {
        let ghost before = self.done@;
        let ghost start = self.pos - self.filled;
        let ghost part = before.skip(start);
        proof {
            lemma_bits_value_bound(part);
        }
        self.byte = self.byte * 2 + if b {
            1
        } else {
            0
        };
        self.filled = self.filled + 1;
        self.pos = self.pos + 1;
        self.done = Ghost(before.push(b));
        proof {
            assert(self.done@.skip(start).drop_last() =~= part);
            assert(self.done@.skip(start).last() == b);
            assert(self.byte == bits_value(self.done@.skip(start)));
        }
        if self.filled == 8 {
            let at: usize = self.pos / 8 - 1;
            proof {
                assert(8 * at == start);
                assert(self.done@.subrange(start, start + 8) =~= self.done@.skip(start));
            }
            buf[at] = self.byte;
            self.byte = 0;
            self.filled = 0;
            proof {
                assert(self.done@.skip(self.pos as int) =~= Seq::<bool>::empty());
                assert forall|p: int| 0 <= p < at implies #[trigger] packed(self.done@)[p]
                    == packed(before)[p] by {
                    assert(self.done@.subrange(8 * p, 8 * p + 8) =~= before.subrange(
                        8 * p,
                        8 * p + 8,
                    ));
                }
                assert(buf@ =~= packed(self.done@) + base.skip(self.pos as int / 8));
            }
        } else {
            proof {
                assert forall|p: int| 0 <= p < packed(before).len() implies #[trigger] packed(
                    self.done@,
                )[p] == packed(before)[p] by {
                    assert(self.done@.subrange(8 * p, 8 * p + 8) =~= before.subrange(
                        8 * p,
                        8 * p + 8,
                    ));
                }
                assert(packed(self.done@) =~= packed(before));
            }
        }
    }

    fn push_symbol(
        &mut self,
        buf: &mut [u8],
        symbol: u8,
        resolution: u8,
        Ghost(base): Ghost<Seq<u8>>,
    )
        requires
            old(self).inv(old(buf)@, base),
            resolution <= 8,
            (old(self).pos + resolution) / 8 <= base.len(),
            old(self).pos + resolution <= usize::MAX,
        ensures
            final(self).inv(final(buf)@, base),
            final(self).done@ == old(self).done@ + symbol_bits(symbol, resolution),
    {
        let ghost before = self.done@;
        let ghost sym = symbol_bits(symbol, resolution);
        let ghost pos0 = self.pos;
        proof {
            assert(before + sym.take(0) =~= before);
        }
        for k in 0..resolution
            invariant
                self.inv(buf@, base),
                resolution <= 8,
                pos0 == before.len(),
                (pos0 + resolution) / 8 <= base.len(),
                pos0 + resolution <= usize::MAX,
                sym == symbol_bits(symbol, resolution),
                self.done@ == before + sym.take(k as int),
        {
            let j: u8 = resolution - 1 - k;
            self.push(buf, (symbol >> j) & 1 == 1, Ghost(base));
            proof {
                assert(sym[k as int] == bit(symbol, j));
                assert(self.done@ =~= before + sym.take(k + 1));
            }
        }
        proof {
            assert(sym.take(resolution as int) =~= sym);
        }
    }
}

proof fn lemma_bits_value_bound(bits: Seq<bool>)
    requires
        bits.len() <= 7,
    ensures
        bits_value(bits) < 128,
{
    reveal_with_fuel(bits_value, 8);
}

/// How long the encoding of a color packet is.
pub proof fn lemma_led_bits_len(color: Color, entries: Seq<(Channel, u8)>, t: TimingConfig)
    ensures
        packet_bits(color, entries).len() == depth_sum(entries),
        led_bits(color, entries, t).len() == depth_sum(entries) * t.resolution as nat,
{
    lemma_packet_len(color, entries);
    lemma_wire_len(packet_bits(color, entries), t);
}

proof fn lemma_packet_len(color: Color, entries: Seq<(Channel, u8)>)
    ensures
        packet_bits(color, entries).len() == depth_sum(entries),
    decreases entries.len(),
{
    if entries.len() > 0 {
        lemma_packet_len(color, entries.drop_last());
    }
}

proof fn lemma_wire_len(data: Seq<bool>, t: TimingConfig)
    ensures
        wire_bits(data, t).len() == data.len() * t.resolution as nat,
    decreases data.len(),
{
    if data.len() > 0 {
        lemma_wire_len(data.drop_last(), t);
        lemma_mul_is_distributive_add_other_way(
            t.resolution as int,
            data.len() as int - 1,
            1,
        );
    }
}

proof fn lemma_depth_sum_prefix(entries: Seq<(Channel, u8)>, k: int)
    requires
        0 <= k <= entries.len(),
    ensures
        depth_sum(entries.take(k)) <= depth_sum(entries),
    decreases entries.len(),
{
    if k == entries.len() {
        assert(entries.take(k) =~= entries);
    } else {
        assert(entries.drop_last().take(k) =~= entries.take(k));
        lemma_depth_sum_prefix(entries.drop_last(), k);
    }
}

proof fn lemma_mul_le(a: int, b: int, c: int)
    requires
        a <= b,
        0 <= c,
    ensures
        a * c <= b * c,
{
    lemma_mul_inequality(a, b, c);
}

/// Encodes one LED's color into the front of `buf`, in whole bytes. A channel
/// less than eight bits deep loses precision, not range.
pub fn render_led(
    buf: &mut [u8],
    color: Color,
    color_pattern: &ColorPattern,
    timing: &TimingConfig,
)
    requires
        timing.resolution <= MAX_RESOLUTION,
        depth_sum(color_pattern@) * timing.resolution / 8 <= old(buf)@.len(),
    ensures
        ({
            let bytes = packed(led_bits(color, color_pattern@, *timing));
            final(buf)@ == bytes + old(buf)@.skip(bytes.len() as int)
        }),
{
    let ghost base = buf@;
    let entries: &[(Channel, u8)] = color_pattern.channels();
    let ghost all = entries@;
    let total_bits: usize = color_pattern.total_bits();
    let ghost total = depth_sum(all) * timing.resolution as nat;
    assert(total <= 320) by (nonlinear_arith)
        requires
            total == depth_sum(all) * timing.resolution as nat,
            depth_sum(all) <= 40,
            timing.resolution <= 8,
    ;
    let mut w: BitWriter = BitWriter { byte: 0, filled: 0, pos: 0, done: Ghost(Seq::empty()) };
    proof {
        assert(w.done@.skip(0) =~= Seq::<bool>::empty());
        assert(packed(w.done@) + base.skip(0) =~= base);
        assert(all.take(0) =~= Seq::<(Channel, u8)>::empty());
    }
    for i in 0..entries.len()
        invariant
            entries@ == all,
            all == color_pattern@,
            pattern_wf(all),
            timing.resolution <= 8,
            total == depth_sum(all) * timing.resolution as nat,
            total <= 320,
            total / 8 <= base.len(),
            w.inv(buf@, base),
            w.done@ == led_bits(color, all.take(i as int), *timing),
    {
        let (channel, bits): (Channel, u8) = entries[i];
        let value: u8 = channel.raw_value(color);
        let shifted: u8 = value >> (8 - bits);
        let ghost prefix = packet_bits(color, all.take(i as int));
        let ghost data = entry_bits(color, all[i as int]);
        proof {
            assert(all.take(i + 1).drop_last() =~= all.take(i as int));
            assert(all.take(i + 1).last() == all[i as int]);
            lemma_packet_len(color, all.take(i + 1));
            lemma_depth_sum_prefix(all, i + 1);
            assert(prefix + data.take(0) =~= prefix);
        }
        for k in 0..bits
            invariant
                1 <= bits <= 8,
                timing.resolution <= 8,
                total == depth_sum(all) * timing.resolution as nat,
                total <= 320,
                total / 8 <= base.len(),
                prefix.len() + bits <= depth_sum(all),
                shifted == value >> (8 - bits) as u8,
                data == Seq::new(bits as nat, |k: int| bit(value, (7 - k) as u8)),
                w.inv(buf@, base),
                w.done@ == wire_bits(prefix + data.take(k as int), *timing),
        {
            let j: u8 = bits - 1 - k;
            let b: bool = (shifted >> j) & 1 == 1;
            let symbol: u8 = if b {
                timing.pattern_high
            } else {
                timing.pattern_low
            };
            let ghost sent = prefix + data.take(k as int);
            proof {
                lemma_shifted_bit(value, bits, k);
                assert(data[k as int] == b);
                let next = prefix + data.take(k + 1);
                assert(next.drop_last() =~= sent);
                assert(next.last() == b);
                lemma_wire_len(sent, *timing);
                lemma_wire_len(next, *timing);
                lemma_mul_le(next.len() as int, depth_sum(all) as int, timing.resolution as int);
                assert(sent.len() * timing.resolution + timing.resolution == next.len()
                    * timing.resolution) by (nonlinear_arith)
                    requires
                        next.len() == sent.len() + 1,
                ;
                lemma_div_is_ordered((w.pos + timing.resolution) as int, total as int, 8);
            }
            w.push_symbol(buf, symbol, timing.resolution, Ghost(base));
        }
        proof {
            assert(data.take(bits as int) =~= data);
            assert(packet_bits(color, all.take(i + 1)) == prefix + data);
        }
    }
    proof {
        assert(all.take(all.len() as int) =~= all);
        lemma_led_bits_len(color, all, *timing);
    }
}

/// Taking the upper `bits` bits first or last is the same.
proof fn lemma_shifted_bit(value: u8, bits: u8, k: u8)
    requires
        1 <= bits <= 8,
        k < bits,
    ensures
        bit(value >> (8 - bits) as u8, (bits - 1 - k) as u8) == bit(value, (7 - k) as u8),
{
    let a: u8 = (8 - bits) as u8;
    let j: u8 = (bits - 1 - k) as u8;
    let c: u8 = (7 - k) as u8;
    assert(((value >> a) >> j) & 1u8 == (value >> c) & 1u8) by (bit_vector)
        requires
            c == a + j,
            c <= 7u8,
    ;
}

// ---------------------------------------------------------------------------
// Frames
// ---------------------------------------------------------------------------

/// How many bytes one LED takes.
pub open spec fn bytes_per_led(m: IledModel) -> nat {
    m.bits_per_led() / 8
}

/// The bytes that an LED of this color is sent.
pub open spec fn led_bytes(m: IledModel, color: Color) -> Seq<u8> {
    packed(led_bits(color, m.channels, m.timing))
}

/// The color that the LED at `index` shows.
pub open spec fn led_color(m: IledModel, pixels: Seq<bool>, index: int) -> Color {
    let (x, y) = pixel_of(m.layout, index, m.width as int, m.height as int);
    if pixels[y * m.width + x] {
        m.on_color
    } else {
        m.off_color
    }
}

/// The frame that shows `pixels`: every LED's bytes in chain order, then zeros.
pub open spec fn frame_of(m: IledModel, pixels: Seq<bool>) -> Seq<u8> {
    let n = bytes_per_led(m) as int;
    Seq::new(
        FRAME_LEN as nat,
        |i: int|
            if i < m.width * m.height * n {
                led_bytes(m, led_color(m, pixels, i / n))[i % n]
            } else {
                0u8
            },
    )
}

/// `height` rows of `width` pixels, each on or off: the first `width * height`
/// entries of an array that is large enough for every configuration.
pub struct Framebuffer {
    pub pixels: [bool; MAX_LEDS],
    pub config: IledConfig,
}

impl Framebuffer {
    /// All pixels off.
    pub fn blank(config: IledConfig) -> (r: Self)
        ensures
            r.config == config,
            r.pixels@ == Seq::new(MAX_LEDS as nat, |i: int| false),
    {
        let r = Framebuffer { pixels: [false;MAX_LEDS], config };
        proof {
            assert(r.pixels@ =~= Seq::new(MAX_LEDS as nat, |i: int| false));
        }
        r
    }

    /// Switches pixel `(x, y)`.
    pub fn set(&mut self, x: usize, y: usize, on: bool)
        requires
            y * old(self).config.width + x < MAX_LEDS,
        ensures
            final(self).config == old(self).config,
            final(self).pixels@ == old(self).pixels@.update(
                y * old(self).config.width + x,
                on,
            ),
    {
        proof {
            lemma_mul_nonnegative(y as int, self.config.width as int);
        }
        self.pixels[y * self.config.width + x] = on;
    }

    /// Writes one full update of the chain into `frame`. Both colors are
    /// encoded once, and every pixel copies one of the two.
    pub fn render(&self, frame: &mut [u8; FRAME_LEN])
        requires
            self.config@.wf(),
        ensures
            final(frame)@ == frame_of(self.config@, self.pixels@),
    {
        let ghost m = self.config@;
        let width: usize = self.config.width;
        let height: usize = self.config.height;
        let total_bits: usize = self.config.color_pattern.total_bits();
        proof {
            lemma_frame_fits(m);
            assert(total_bits * self.config.timing.resolution <= 320) by (nonlinear_arith)
                requires
                    total_bits <= 40,
                    self.config.timing.resolution <= 8,
            ;
        }
        let n: usize = total_bits * self.config.timing.resolution as usize / 8;
        let on: Vec<u8> = encode(self.config.on_color, &self.config, n);
        let off: Vec<u8> = encode(self.config.off_color, &self.config, n);
        for i in 0..FRAME_LEN
            invariant
                forall|j: int| 0 <= j < i ==> frame@[j] == 0,
        {
            frame[i] = 0;
        }
        proof {
            assert(FRAME_LEN == 6120);
            assert(drawn(m, self.pixels@, frame@, 0)) by {
                assert forall|i: int| 0 <= i < FRAME_LEN implies frame@[i] == drawn_byte(
                    m,
                    self.pixels@,
                    i,
                    0,
                ) by {
                    lemma_first_pixel(m, i);
                }
            }
            lemma_mul_nonnegative(height as int, width as int);
            lemma_mul_basics_1(width as int);
        }
        for y in 0..height
            invariant
                m == self.config@,
                m.wf(),
                width == m.width,
                height == m.height,
                n == bytes_per_led(m),
                n >= 1,
                on@ == led_bytes(m, m.on_color),
                off@ == led_bytes(m, m.off_color),
                on@.len() == n,
                off@.len() == n,
                m.width * m.height * n <= FRAME_LEN,
                drawn(m, self.pixels@, frame@, y * width),
        {
            proof {
                assert(y * width + 0 == y * width);
                lemma_mul_le(y as int + 1, height as int, width as int);
                assert((y + 1) * width == y * width + width) by (nonlinear_arith);
                assert(height * width == width * height) by (nonlinear_arith);
                lemma_mul_nonnegative(y as int, width as int);
            }
            for x in 0..width
                invariant
                    m == self.config@,
                    m.wf(),
                    width == m.width,
                    height == m.height,
                    y < height,
                    n == bytes_per_led(m),
                    n >= 1,
                    on@ == led_bytes(m, m.on_color),
                    off@ == led_bytes(m, m.off_color),
                    on@.len() == n,
                    off@.len() == n,
                    m.width * m.height * n <= FRAME_LEN,
                    0 <= y * width,
                    y * width + width <= MAX_LEDS,
                    drawn(m, self.pixels@, frame@, y * width + x),
            {
                let led: usize = self.config.layout.led_index(x, y, width, height);
                let ghost before = frame@;
                proof {
                    lemma_mul_le(led as int + 1, (m.width * m.height) as int, n as int);
                    assert((led + 1) * n == led * n + n) by (nonlinear_arith);
                    lemma_mul_nonnegative(led as int, n as int);
                }
                if self.pixels[y * width + x] {
                    copy_at(frame, led * n, &on);
                } else {
                    copy_at(frame, led * n, &off);
                }
                proof {
                    lemma_drawn_step(m, self.pixels@, before, frame@, x as int, y as int);
                }
            }
            proof {
                assert((y + 1) * width == y * width + width) by (nonlinear_arith);
            }
        }
        proof {
            assert(height * width == m.width * m.height) by (nonlinear_arith)
                requires
                    width == m.width,
                    height == m.height,
            ;
            lemma_drawn_all(m, self.pixels@, frame@);
        }
    }
}

/// The frame byte at `i` once the first `k` pixels have been drawn.
spec fn drawn_byte(m: IledModel, pixels: Seq<bool>, i: int, k: int) -> u8 {
    let n = bytes_per_led(m) as int;
    if i < m.width * m.height * n {
        let (x, y) = pixel_of(m.layout, i / n, m.width as int, m.height as int);
        if y * m.width + x < k {
            led_bytes(m, led_color(m, pixels, i / n))[i % n]
        } else {
            0u8
        }
    } else {
        0u8
    }
}

/// Whether `frame` is what the first `k` pixels make of it.
spec fn drawn(m: IledModel, pixels: Seq<bool>, frame: Seq<u8>, k: int) -> bool {
    &&& frame.len() == FRAME_LEN
    &&& forall|i: int| 0 <= i < FRAME_LEN ==> #[trigger] frame[i] == drawn_byte(m, pixels, i, k)
}

/// The LED that a byte before the end of the LED data belongs to.
proof fn lemma_led_of_byte(m: IledModel, i: int)
    requires
        m.wf(),
        0 <= i < m.width * m.height * bytes_per_led(m),
    ensures
        0 <= i / (bytes_per_led(m) as int) < m.width * m.height,
        bytes_per_led(m) > 0,
{
    let n = bytes_per_led(m) as int;
    let leds = m.width * m.height;
    if n == 0 {
        lemma_mul_by_zero_is_zero(leds as int);
    }
    lemma_div_pos_is_pos(i, n);
    lemma_mul_is_commutative(leds as int, n);
    lemma_multiply_divide_lt(i, n, leds as int);
}

proof fn lemma_first_pixel(m: IledModel, i: int)
    requires
        m.wf(),
        0 <= i,
    ensures
        i < m.width * m.height * bytes_per_led(m) ==> ({
            let (x, y) = pixel_of(
                m.layout,
                i / (bytes_per_led(m) as int),
                m.width as int,
                m.height as int,
            );
            &&& 0 <= x < m.width
            &&& 0 <= y < m.height
            &&& y * m.width + x >= 0
        }),
{
    if i < m.width * m.height * bytes_per_led(m) {
        lemma_led_of_byte(m, i);
        let led = i / (bytes_per_led(m) as int);
        lemma_chain_index_onto(m.layout, led, m.width as int, m.height as int);
        let (x, y) = pixel_of(m.layout, led, m.width as int, m.height as int);
        lemma_mul_nonnegative(y, m.width as int);
    }
}

/// Drawing one more pixel.
proof fn lemma_drawn_step(
    m: IledModel,
    pixels: Seq<bool>,
    before: Seq<u8>,
    after: Seq<u8>,
    x: int,
    y: int,
)
    requires
        m.wf(),
        0 <= x < m.width,
        0 <= y < m.height,
        bytes_per_led(m) >= 1,
        m.width * m.height * bytes_per_led(m) <= FRAME_LEN,
        drawn(m, pixels, before, y * m.width + x),
        ({
            let n = bytes_per_led(m) as int;
            let at = m.layout.chain_index(x, y, m.width as int, m.height as int) * n;
            let color = if pixels[y * m.width + x] {
                m.on_color
            } else {
                m.off_color
            };
            &&& led_bytes(m, color).len() == n
            &&& after == before.take(at) + led_bytes(m, color) + before.skip(at + n)
            &&& 0 <= at
            &&& at + n <= FRAME_LEN
        }),
    ensures
        drawn(m, pixels, after, y * m.width + x + 1),
{
    let w = m.width as int;
    let h = m.height as int;
    let n = bytes_per_led(m) as int;
    let led = m.layout.chain_index(x, y, w, h);
    let at = led * n;
    lemma_chain_index_range(m.layout, x, y, w, h);
    lemma_pixel_of_chain_index(m.layout, x, y, w, h);
    assert forall|i: int| 0 <= i < FRAME_LEN implies #[trigger] after[i] == drawn_byte(
        m,
        pixels,
        i,
        y * w + x + 1,
    ) by {
        if at <= i < at + n {
            lemma_fundamental_div_mod_converse(i, n, led, i - at);
            assert(i < m.width * m.height * n) by (nonlinear_arith)
                requires
                    i < led * n + n,
                    led < m.width * m.height,
                    n >= 1,
            ;
        } else {
            assert(after[i] == before[i]);
            if i < m.width * m.height * n {
                lemma_led_of_byte(m, i);
                let other = i / n;
                lemma_chain_index_onto(m.layout, other, w, h);
                let (a, b) = pixel_of(m.layout, other, w, h);
                if b * w + a == y * w + x {
                    lemma_fundamental_div_mod_converse(b * w + a, w, b, a);
                    lemma_fundamental_div_mod_converse(y * w + x, w, y, x);
                    assert(other == led);
                    lemma_fundamental_div_mod(i, n);
                    lemma_mod_bound(i, n);
                    lemma_mul_is_commutative(n, led);
                    assert(false);
                }
            }
        }
    }
}

/// When all pixels have been drawn, the frame is complete.
proof fn lemma_drawn_all(m: IledModel, pixels: Seq<bool>, frame: Seq<u8>)
    requires
        m.wf(),
        drawn(m, pixels, frame, (m.width * m.height) as int),
    ensures
        frame == frame_of(m, pixels),
{
    let n = bytes_per_led(m) as int;
    assert forall|i: int| 0 <= i < FRAME_LEN implies #[trigger] frame[i] == frame_of(m, pixels)[i] by {
        if i < m.width * m.height * n {
            lemma_led_of_byte(m, i);
            lemma_chain_index_onto(m.layout, i / n, m.width as int, m.height as int);
            let (x, y) = pixel_of(m.layout, i / n, m.width as int, m.height as int);
            assert(y * m.width + x < m.width * m.height) by (nonlinear_arith)
                requires
                    0 <= x < m.width,
                    0 <= y < m.height,
            ;
        }
    }
    assert(frame =~= frame_of(m, pixels));
}

/// The bytes that an LED of this color is sent.
fn encode(color: Color, config: &IledConfig, n: usize) -> (r: Vec<u8>)
    requires
        config@.wf(),
        n == bytes_per_led(config@),
    ensures
        r@ == led_bytes(config@, color),
        r@.len() == n,
{
    let mut buf: Vec<u8> = Vec::new();
    for i in 0..n
        invariant
            buf@.len() == i,
    {
        buf.push(0);
    }
    proof {
        lemma_led_bits_len(color, config.color_pattern@, config.timing);
    }
    render_led(buf.as_mut_slice(), color, &config.color_pattern, &config.timing);
    proof {
        assert(buf@ =~= led_bytes(config@, color));
    }
    buf
}

/// Copies `src` to `at`.
fn copy_at(frame: &mut [u8; FRAME_LEN], at: usize, src: &Vec<u8>)
    requires
        at + src@.len() <= FRAME_LEN,
    ensures
        final(frame)@ == old(frame)@.take(at as int) + src@ + old(frame)@.skip(
            at + src@.len(),
        ),
{
    let ghost before = frame@;
    for i in 0..src.len()
        invariant
            at + src@.len() <= FRAME_LEN,
            before.len() == FRAME_LEN,
            frame@.len() == FRAME_LEN,
            forall|j: int|
                0 <= j < FRAME_LEN ==> #[trigger] frame@[j] == if at <= j < at + i {
                    src@[j - at]
                } else {
                    before[j]
                },
    {
        frame[at + i] = src[i];
    }
    proof {
        assert(frame@ =~= before.take(at as int) + src@ + before.skip(at + src@.len()));
    }
}

// ---------------------------------------------------------------------------
// Laws
// ---------------------------------------------------------------------------

/// The bytes of low output that a timing's reset takes, rounded up.
pub open spec fn reset_bytes(t: TimingConfig) -> nat {
    (t.bit_rate() * t.reset_ns as nat + 7_999_999_999) / 8_000_000_000
}

/// Every configuration fits: the data of all LEDs and the reset after them
/// never take more than a frame.
pub proof fn lemma_frame_fits(m: IledModel)
    requires
        m.wf(),
    ensures
        1 <= bytes_per_led(m) <= MAX_BYTES_PER_LED,
        m.width * m.height * bytes_per_led(m) <= MAX_LED_DATA_BYTES,
        reset_bytes(m.timing) <= MAX_RESET_BYTES,
        m.width * m.height * bytes_per_led(m) + reset_bytes(m.timing) <= FRAME_LEN,
        reset_bytes(m.timing) * 8_000_000_000 >= m.timing.bit_rate() * m.timing.reset_ns,
        FRAME_LEN == 6120,
{
    let res = m.timing.resolution as nat;
    let depth = depth_sum(m.channels);
    lemma_depth_bounds(m.channels);
    assert(2 <= depth * res <= 320) by (nonlinear_arith)
        requires
            1 <= depth <= 40,
            2 <= res <= 8,
    ;
    let n = bytes_per_led(m);
    let leds = m.width * m.height;
    assert(leds * n <= 5120) by (nonlinear_arith)
        requires
            leds <= 128,
            n <= 40,
    ;
    lemma_rate_bound(m.timing);
    let rate = m.timing.bit_rate();
    let ns = m.timing.reset_ns as nat;
    assert(rate * ns <= 8_000_000_000_000) by (nonlinear_arith)
        requires
            rate <= 8_000_000,
            ns <= 1_000_000,
    ;
}

proof fn lemma_rate_bound(t: TimingConfig)
    requires
        t.wf(),
    ensures
        t.bit_rate() <= MAX_BIT_RATE_HZ,
{
    let a = t.resolution as nat * 1_000_000_000;
    let d = t.pattern_ns as nat;
    assert(a / d <= 8_000_000) by (nonlinear_arith)
        requires
            a <= 8_000_000_000,
            d >= 1000,
    ;
}

proof fn lemma_depth_bounds(entries: Seq<(Channel, u8)>)
    requires
        forall|i: int|
            0 <= i < entries.len() ==> 1 <= (#[trigger] entries[i]).1 <= MAX_CHANNEL_BITS,
    ensures
        entries.len() <= depth_sum(entries) <= entries.len() * 8,
    decreases entries.len(),
{
    if entries.len() > 0 {
        let rest = entries.drop_last();
        assert forall|i: int| 0 <= i < rest.len() implies 1 <= (#[trigger] rest[i]).1
            <= MAX_CHANNEL_BITS by {
            assert(rest[i] == entries[i]);
        }
        lemma_depth_bounds(rest);
    }
}

/// Entries are sent in the order in which a pattern lists them: the packet of
/// one list followed by another is that of the first, then that of the second.
pub proof fn lemma_packet_concat(color: Color, a: Seq<(Channel, u8)>, b: Seq<(Channel, u8)>)
    ensures
        packet_bits(color, a + b) == packet_bits(color, a) + packet_bits(color, b),
    decreases b.len(),
{
    if b.len() == 0 {
        assert(a + b =~= a);
        assert(packet_bits(color, a) + packet_bits(color, b) =~= packet_bits(color, a));
    } else {
        assert((a + b).drop_last() =~= a + b.drop_last());
        assert((a + b).last() == b.last());
        lemma_packet_concat(color, a, b.drop_last());
        let e = entry_bits(color, b.last());
        assert(packet_bits(color, a) + packet_bits(color, b.drop_last()) + e =~= packet_bits(
            color,
            a,
        ) + (packet_bits(color, b.drop_last()) + e));
    }
}

/// The eight bits that a color holds for a channel.
pub open spec fn component(color: Color, channel: Channel) -> u8 {
    if channel == Channel::Red {
        color.0
    } else if channel == Channel::Green {
        color.1
    } else if channel == Channel::Blue {
        color.2
    } else if channel == Channel::WarmWhite {
        color.3
    } else {
        color.4
    }
}

/// Where the data of entry `k` is: behind the depths of those before it, the
/// most significant bit of its channel first.
pub proof fn lemma_packet_entry(color: Color, entries: Seq<(Channel, u8)>, k: int, j: int)
    requires
        0 <= k < entries.len(),
        0 <= j < entries[k].1 <= 8,
    ensures
        ({
            let at = depth_sum(entries.take(k)) + j;
            let v = component(color, entries[k].0);
            &&& at < depth_sum(entries)
            &&& at < packet_bits(color, entries).len()
            &&& packet_bits(color, entries)[at] == ((v >> ((7 - j) as u8)) & 1u8 == 1u8)
        }),
{
    let front = entries.take(k);
    let one = seq![entries[k]];
    let back = entries.skip(k + 1);
    assert(entries =~= front + (one + back));
    lemma_packet_concat(color, front, one + back);
    lemma_packet_concat(color, one, back);
    assert(one.drop_last() =~= seq![]);
    reveal_with_fuel(packet_bits, 2);
    assert(packet_bits(color, one) =~= entry_bits(color, entries[k]));
    lemma_packet_len(color, front);
    lemma_packet_len(color, entries);
    crate::color::lemma_depth_sum_concat(front, one + back);
    crate::color::lemma_depth_sum_concat(one, back);
    let at = depth_sum(front) + j;
    let p = packet_bits(color, entries);
    assert(p[at] == (entry_bits(color, entries[k]) + packet_bits(color, back))[j]);
    assert(p[at] == entry_bits(color, entries[k])[j]);
}

/// Data bit `i` is sent as one of the two symbols, most significant sub-bit
/// first, behind those of the bits before it.
pub proof fn lemma_wire_bit(data: Seq<bool>, t: TimingConfig, i: int, q: int)
    requires
        0 <= i < data.len(),
        0 <= q < t.resolution <= 8,
    ensures
        ({
            let at = i * t.resolution + q;
            let symbol = if data[i] {
                t.pattern_high
            } else {
                t.pattern_low
            };
            &&& 0 <= at < wire_bits(data, t).len()
            &&& wire_bits(data, t)[at] == ((symbol >> ((t.resolution - 1 - q) as u8)) & 1u8 == 1u8)
        }),
    decreases data.len(),
{
    let r = t.resolution as int;
    let front = data.drop_last();
    lemma_wire_len(front, t);
    lemma_wire_len(data, t);
    lemma_mul_nonnegative(i, r);
    if i < data.len() - 1 {
        lemma_wire_bit(front, t, i, q);
    } else {
        let sym = symbol_bits(symbol_of(data.last(), t), t.resolution);
        assert(wire_bits(data, t)[front.len() * r + q] == sym[q]);
    }
}

/// Bits go into bytes in order, the first of eight into the most significant
/// place.
pub proof fn lemma_packed_bit(bits: Seq<bool>, i: int)
    requires
        0 <= i < bits.len() / 8 * 8,
    ensures
        i / 8 < packed(bits).len(),
        ((packed(bits)[i / 8] >> ((7 - i % 8) as u8)) & 1u8 == 1u8) == bits[i],
{
    let p = i / 8;
    let s = bits.subrange(8 * p, 8 * p + 8);
    reveal_with_fuel(bits_value, 9);
    let b0: u8 = if s[0] { 1 } else { 0 };
    let b1: u8 = if s[1] { 1 } else { 0 };
    let b2: u8 = if s[2] { 1 } else { 0 };
    let b3: u8 = if s[3] { 1 } else { 0 };
    let b4: u8 = if s[4] { 1 } else { 0 };
    let b5: u8 = if s[5] { 1 } else { 0 };
    let b6: u8 = if s[6] { 1 } else { 0 };
    let b7: u8 = if s[7] { 1 } else { 0 };
    let v = packed(bits)[p];
    let s1 = s.drop_last();
    let s2 = s1.drop_last();
    let s3 = s2.drop_last();
    let s4 = s3.drop_last();
    let s5 = s4.drop_last();
    let s6 = s5.drop_last();
    let s7 = s6.drop_last();
    assert(s7.drop_last().len() == 0);
    assert(bits_value(s7) == b0);
    assert(bits_value(s6) == 2 * b0 + b1);
    assert(bits_value(s5) == 4 * b0 + 2 * b1 + b2);
    assert(bits_value(s4) == 8 * b0 + 4 * b1 + 2 * b2 + b3);
    assert(bits_value(s3) == 16 * b0 + 8 * b1 + 4 * b2 + 2 * b3 + b4);
    assert(bits_value(s2) == 32 * b0 + 16 * b1 + 8 * b2 + 4 * b3 + 2 * b4 + b5);
    assert(bits_value(s1) == 64 * b0 + 32 * b1 + 16 * b2 + 8 * b3 + 4 * b4 + 2 * b5 + b6);
    assert(v == 128 * b0 + 64 * b1 + 32 * b2 + 16 * b3 + 8 * b4 + 4 * b5 + 2 * b6 + b7);
    assert((v >> 7u8) & 1u8 == b0 && (v >> 6u8) & 1u8 == b1 && (v >> 5u8) & 1u8 == b2 && (v >> 4u8)
        & 1u8 == b3 && (v >> 3u8) & 1u8 == b4 && (v >> 2u8) & 1u8 == b5 && (v >> 1u8) & 1u8 == b6
        && (v >> 0u8) & 1u8 == b7) by (bit_vector)
        requires
            b0 <= 1u8,
            b1 <= 1u8,
            b2 <= 1u8,
            b3 <= 1u8,
            b4 <= 1u8,
            b5 <= 1u8,
            b6 <= 1u8,
            b7 <= 1u8,
            v == 128 * b0 + 64 * b1 + 32 * b2 + 16 * b3 + 8 * b4 + 4 * b5 + 2 * b6 + b7,
    ;
    let k = i % 8;
    assert(s[k] == bits[i]);
    assert(k == 0 || k == 1 || k == 2 || k == 3 || k == 4 || k == 5 || k == 6 || k == 7);
}

/// What one LED is sent, bit by bit: for each entry of the pattern in turn, and
/// each of the entry's bits from the channel's most significant one on, the
/// sub-bits of the symbol for that bit, in the bytes of the stream from the
/// most significant place on.
pub proof fn lemma_led_stream(
    color: Color,
    entries: Seq<(Channel, u8)>,
    t: TimingConfig,
    k: int,
    j: int,
    q: int,
)
    requires
        0 <= k < entries.len(),
        0 <= j < entries[k].1 <= 8,
        0 <= q < t.resolution <= 8,
        depth_sum(entries) * t.resolution % 8 == 0,
    ensures
        ({
            let v = component(color, entries[k].0);
            let symbol = if (v >> ((7 - j) as u8)) & 1u8 == 1u8 {
                t.pattern_high
            } else {
                t.pattern_low
            };
            let at = (depth_sum(entries.take(k)) + j) * t.resolution + q;
            let bytes = packed(led_bits(color, entries, t));
            &&& bytes.len() == depth_sum(entries) * t.resolution / 8
            &&& 0 <= at / 8 < bytes.len()
            &&& ((bytes[at / 8] >> ((7 - at % 8) as u8)) & 1u8 == 1u8) == ((symbol >> ((
            t.resolution - 1 - q) as u8)) & 1u8 == 1u8)
        }),
{
    let data = packet_bits(color, entries);
    let i = depth_sum(entries.take(k)) + j;
    let at = i * t.resolution + q;
    lemma_packet_entry(color, entries, k, j);
    lemma_led_bits_len(color, entries, t);
    lemma_wire_bit(data, t, i, q);
    lemma_fundamental_div_mod((depth_sum(entries) * t.resolution) as int, 8);
    lemma_packed_bit(led_bits(color, entries, t), at);
}

/// Every pixel's LED is sent the color that the pixel asks for, at the place of
/// the LED in the chain; behind the last LED there are only zeros.
pub proof fn lemma_frame_shows_pixel(m: IledModel, pixels: Seq<bool>, x: int, y: int, b: int)
    requires
        m.wf(),
        0 <= x < m.width,
        0 <= y < m.height,
        0 <= b < depth_sum(m.channels) * m.timing.resolution / 8,
    ensures
        ({
            let n = depth_sum(m.channels) * m.timing.resolution / 8;
            let led = m.layout.chain_index(x, y, m.width as int, m.height as int);
            let color = if pixels[y * m.width + x] {
                m.on_color
            } else {
                m.off_color
            };
            &&& 0 <= led * n + b < FRAME_LEN
            &&& frame_of(m, pixels)[led * n + b] == packed(
                led_bits(color, m.channels, m.timing),
            )[b]
        }),
        forall|i: int|
            m.width * m.height * (depth_sum(m.channels) * m.timing.resolution / 8) <= i < FRAME_LEN
                ==> #[trigger] frame_of(m, pixels)[i] == 0,
{
    let n = bytes_per_led(m) as int;
    let w = m.width as int;
    let h = m.height as int;
    let led = m.layout.chain_index(x, y, w, h);
    lemma_frame_fits(m);
    lemma_chain_index_range(m.layout, x, y, w, h);
    lemma_pixel_of_chain_index(m.layout, x, y, w, h);
    lemma_fundamental_div_mod_converse(led * n + b, n, led, b);
    lemma_mul_nonnegative(led, n);
    assert(led * n + b < w * h * n) by (nonlinear_arith)
        requires
            led < w * h,
            0 <= b < n,
    ;
}

} // verus!
